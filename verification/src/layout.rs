//! What the new root holds, and where: how the plan for the file system lays it
//! out.

use vstd::prelude::*;
use crate::config::{base_prefix, data_dir, opt_text};
use crate::fs::{
    audio_steps, bound, bound_file, device_node_steps, device_nodes, device_steps, dropzone_steps,
    font_steps, fresh, fs_next, fs_start, fuse_words, inside, isolation_steps, made_dirs, may, must, net_file_steps,
    net_files, net_steps, overlay_after, overlay_next, overlay_steps, pivot_steps, prefix_mount, private_step,
    probed_paths, pseudo_steps, read_only, root_dirs, sealed, sealed_sys, staging_dir,
    staging_steps, steps_for, system_dir_steps, system_dirs, system_steps, FsEvent, FsSetupResult,
    FsState, Host, OpView, Overlay, OverlayEvent, StagingState, StepView, OVERLAY_OPTIONS,
    WINE_PREFIX,
};
use crate::isolation::{is_device, is_system};
use crate::path::joined;
use crate::plan::{Flow, Guide};
use crate::sys::MountFlag;
use crate::text::{all_bytes, lemma_ascii_utf8, utf8};

verus! {

/// Whether steps stand in a plan, one right behind the other.
pub open spec fn in_turn(steps: Seq<StepView>, part: Seq<StepView>) -> bool {
    exists|k: int|
        0 <= k && k + part.len() <= steps.len() && #[trigger] steps.subrange(k, k + part.len())
            == part
}

proof fn lemma_in_turn_concat(a: Seq<StepView>, b: Seq<StepView>, part: Seq<StepView>)
    ensures
        in_turn(a, part) || in_turn(b, part) ==> in_turn(a + b, part),
{
    let c = a + b;
    let n = part.len();
    if in_turn(a, part) {
        let k = choose|k: int|
            0 <= k && k + n <= a.len() && #[trigger] a.subrange(k, k + n) == part;
        assert(c.subrange(k, k + n) =~= a.subrange(k, k + n));
    }
    if in_turn(b, part) {
        let k = choose|k: int|
            0 <= k && k + n <= b.len() && #[trigger] b.subrange(k, k + n) == part;
        let m = a.len() + k;
        assert(c.subrange(m, m + n) =~= b.subrange(k, k + n));
    }
}

proof fn lemma_whole_in_turn(part: Seq<StepView>)
    ensures
        in_turn(part, part),
{
    assert(part.subrange(0int, 0int + part.len()) =~= part);
}

/// Steps that stand in one part of the plan stand in the plan.
proof fn lemma_part_of_plan(
    profile: Seq<char>,
    dropzone: Option<Seq<u8>>,
    host: Host,
    part: Seq<StepView>,
)
    ensures
        ({
            let xdg = opt_text(host.xdg_runtime_dir);
            let existing = all_bytes(host.existing@);
            let staging = staging_dir(xdg);
            ({
                ||| in_turn(staging_steps(staging, host.staging), part)
                ||| in_turn(system_steps(staging, existing), part)
                ||| in_turn(pseudo_steps(staging), part)
                ||| in_turn(device_steps(staging, existing), part)
                ||| in_turn(overlay_steps(profile, opt_text(host.home), staging), part)
                ||| in_turn(audio_steps(staging, xdg, existing), part)
                ||| in_turn(dropzone_steps(staging, dropzone), part)
                ||| in_turn(font_steps(staging, existing), part)
                ||| in_turn(
                    net_steps(staging, net_files(), existing, all_bytes(host.directories@)),
                    part,
                )
                ||| in_turn(pivot_steps(staging), part)
            }) ==> in_turn(isolation_steps(profile, dropzone, host), part)
        }),
{
    let xdg = opt_text(host.xdg_runtime_dir);
    let existing = all_bytes(host.existing@);
    let staging = staging_dir(xdg);
    let last = font_steps(staging, existing) + net_steps(
        staging,
        net_files(),
        existing,
        all_bytes(host.directories@),
    );
    lemma_in_turn_concat(
        font_steps(staging, existing),
        net_steps(staging, net_files(), existing, all_bytes(host.directories@)),
        part,
    );
    let a = seq![private_step()];
    lemma_in_turn_concat(a, staging_steps(staging, host.staging), part);
    let a = a + staging_steps(staging, host.staging);
    lemma_in_turn_concat(a, system_steps(staging, existing), part);
    let a = a + system_steps(staging, existing);
    lemma_in_turn_concat(a, pseudo_steps(staging), part);
    let a = a + pseudo_steps(staging);
    lemma_in_turn_concat(a, device_steps(staging, existing), part);
    let a = a + device_steps(staging, existing);
    lemma_in_turn_concat(a, overlay_steps(profile, opt_text(host.home), staging), part);
    let a = a + overlay_steps(profile, opt_text(host.home), staging);
    lemma_in_turn_concat(a, audio_steps(staging, xdg, existing), part);
    let a = a + audio_steps(staging, xdg, existing);
    lemma_in_turn_concat(a, dropzone_steps(staging, dropzone), part);
    let a = a + dropzone_steps(staging, dropzone);
    lemma_in_turn_concat(a, last, part);
    let a = a + last;
    lemma_in_turn_concat(a, pivot_steps(staging), part);
    assert(isolation_steps(profile, dropzone, host) == a + pivot_steps(staging));
}

proof fn lemma_steps_for_in_turn(
    staging: Seq<u8>,
    paths: Seq<(&'static str, &'static str)>,
    existing: Seq<Seq<u8>>,
    steps: spec_fn((&'static str, &'static str)) -> Seq<StepView>,
    i: int,
)
    requires
        0 <= i < paths.len(),
        existing.contains(utf8(paths[i].0@)),
    ensures
        in_turn(steps_for(staging, paths, existing, steps), steps(paths[i])),
    decreases paths.len(),
{
    let rest = paths.drop_last();
    let before = steps_for(staging, rest, existing, steps);
    let part = steps(paths[i]);
    if i == paths.len() - 1 {
        lemma_whole_in_turn(part);
    } else {
        assert(rest[i] == paths[i]);
        lemma_steps_for_in_turn(staging, rest, existing, steps, i);
    }
    lemma_in_turn_concat(before, steps(paths.last()), part);
}

proof fn lemma_net_in_turn(
    staging: Seq<u8>,
    files: Seq<(&'static str, &'static str, &'static str)>,
    existing: Seq<Seq<u8>>,
    directories: Seq<Seq<u8>>,
    i: int,
)
    requires
        0 <= i < files.len(),
        existing.contains(utf8(files[i].0@)),
    ensures
        in_turn(
            net_steps(staging, files, existing, directories),
            net_file_steps(staging, files[i], directories.contains(utf8(files[i].0@))),
        ),
    decreases files.len(),
{
    let rest = files.drop_last();
    let before = net_steps(staging, rest, existing, directories);
    let part = net_file_steps(staging, files[i], directories.contains(utf8(files[i].0@)));
    if i == files.len() - 1 {
        lemma_whole_in_turn(part);
    } else {
        assert(rest[i] == files[i]);
        lemma_net_in_turn(staging, rest, existing, directories, i);
    }
    lemma_in_turn_concat(
        before,
        net_file_steps(staging, files.last(), directories.contains(utf8(files.last().0@))),
        part,
    );
}

/// What the kinds of mounts are: to show a directory or a file somewhere else, to
/// make a place read-only, and there to allow no foreign powers and no devices,
/// and nothing to be started either.
pub proof fn law_kinds_of_mounts(source: Seq<u8>, target: Seq<u8>)
    ensures
        bound(source, target) == (OpView::Mount {
            source: Some(source),
            target,
            fstype: None,
            flags: seq![MountFlag::Bind, MountFlag::Recursive],
            data: None,
        }),
        bound_file(source, target) == (OpView::Mount {
            source: Some(source),
            target,
            fstype: None,
            flags: seq![MountFlag::Bind],
            data: None,
        }),
        read_only(target) matches OpView::Mount { source: s, target: t, fstype, flags, data }
            && s is None && t == target && fstype is None && data is None && flags.to_set()
            == set![MountFlag::Remount, MountFlag::Bind, MountFlag::ReadOnly, MountFlag::Recursive],
        sealed(target) matches OpView::Mount { source: s, target: t, fstype, flags, data }
            && s is None && t == target && fstype is None && data is None && flags.to_set() == set![
            MountFlag::Remount,
            MountFlag::Bind,
            MountFlag::ReadOnly,
            MountFlag::Recursive,
            MountFlag::NoSuid,
            MountFlag::NoDev,
        ],
        sealed_sys(target) matches OpView::Mount { source: s, target: t, fstype, flags, data }
            && s is None && t == target && fstype is None && data is None && flags.to_set() == set![
            MountFlag::Remount,
            MountFlag::Bind,
            MountFlag::ReadOnly,
            MountFlag::Recursive,
            MountFlag::NoSuid,
            MountFlag::NoDev,
            MountFlag::NoExec,
        ],
{
    lemma_flags_of(read_only(target)->flags);
    lemma_flags_of(sealed(target)->flags);
    lemma_flags_of(sealed_sys(target)->flags);
    let f = read_only(target)->flags;
    assert(f[0] == MountFlag::Remount && f[1] == MountFlag::Bind && f[2] == MountFlag::ReadOnly
        && f[3] == MountFlag::Recursive);
    assert(f.to_set() =~= set![
        MountFlag::Remount,
        MountFlag::Bind,
        MountFlag::ReadOnly,
        MountFlag::Recursive,
    ]);
    let f = sealed(target)->flags;
    assert(f[0] == MountFlag::Remount && f[1] == MountFlag::Bind && f[2] == MountFlag::ReadOnly
        && f[3] == MountFlag::Recursive && f[4] == MountFlag::NoSuid && f[5] == MountFlag::NoDev);
    assert(f.to_set() =~= set![
        MountFlag::Remount,
        MountFlag::Bind,
        MountFlag::ReadOnly,
        MountFlag::Recursive,
        MountFlag::NoSuid,
        MountFlag::NoDev,
    ]);
    let f = sealed_sys(target)->flags;
    assert(f[0] == MountFlag::Remount && f[1] == MountFlag::Bind && f[2] == MountFlag::ReadOnly
        && f[3] == MountFlag::Recursive && f[4] == MountFlag::NoSuid && f[5] == MountFlag::NoDev
        && f[6] == MountFlag::NoExec);
    assert(f.to_set() =~= set![
        MountFlag::Remount,
        MountFlag::Bind,
        MountFlag::ReadOnly,
        MountFlag::Recursive,
        MountFlag::NoSuid,
        MountFlag::NoDev,
        MountFlag::NoExec,
    ]);
}

proof fn lemma_flags_of(f: Seq<MountFlag>)
    ensures
        forall|x: MountFlag| #[trigger] f.to_set().contains(x) <==> f.contains(x),
{
}

/// A step on which the plan depends ends it where it fails, one that it can do
/// without never does, and either is followed by the next where it succeeds.
pub proof fn law_steps_bind_or_not(op: OpView)
    ensures
        must(op).op == op && must(op).guide.on_success == Flow::Next && must(op).guide.on_failure
            == Flow::Abort,
        may(op).op == op && may(op).guide.on_success == Flow::Next && may(op).guide.on_failure
            == Flow::Next,
{
}

/// How every plan opens: mounts stop reaching the host, the place of the new root
/// is made where it is missing, closed to other users, and covered by an empty
/// file system in memory. Without each of these the plan ends.
pub proof fn law_plan_opens_with_an_empty_root(
    profile: Seq<char>,
    dropzone: Option<Seq<u8>>,
    host: Host,
)
    ensures
        ({
            let steps = isolation_steps(profile, dropzone, host);
            let staging = staging_dir(opt_text(host.xdg_runtime_dir));
            let at: int = if host.staging is Missing {
                3
            } else {
                2
            };
            &&& steps.len() > at
            &&& steps[0] == must(
                OpView::Mount {
                    source: None,
                    target: utf8("/"@),
                    fstype: None,
                    flags: seq![MountFlag::Private, MountFlag::Recursive],
                    data: None,
                },
            )
            &&& host.staging is Missing ==> steps[1] == must(OpView::CreateDirs { path: staging })
            &&& steps[at - 1] == must(OpView::SetMode { path: staging, mode: 0o700 })
            &&& steps[at] == must(
                OpView::Mount {
                    source: Some(utf8("tmpfs"@)),
                    target: staging,
                    fstype: Some("tmpfs"),
                    flags: seq![],
                    data: Some("mode=755"),
                },
            )
        }),
{
    let steps = isolation_steps(profile, dropzone, host);
    let staging = staging_dir(opt_text(host.xdg_runtime_dir));
    let opening = staging_steps(staging, host.staging);
    lemma_plan_in_two(profile, dropzone, host);
    assert(forall|k: int| 0 <= k < opening.len() ==> steps[1 + k] == #[trigger] opening[k]);
}

/// The new root is built in a directory of its own, below that of the session or
/// else below `/tmp`.
pub proof fn law_where_the_root_is_built(dir: Seq<char>)
    ensures
        staging_dir(Some(dir)) == joined(utf8(dir), utf8("swine_root"@)),
        staging_dir(None) == joined(utf8("/tmp"@), utf8("swine_root"@)),
{
}

/// The plan behind its opening.
spec fn behind_opening(profile: Seq<char>, dropzone: Option<Seq<u8>>, host: Host) -> Seq<StepView> {
    let xdg = opt_text(host.xdg_runtime_dir);
    let existing = all_bytes(host.existing@);
    let staging = staging_dir(xdg);
    made_dirs(staging, root_dirs()) + system_steps(staging, existing) + pseudo_steps(staging)
        + device_steps(staging, existing) + overlay_steps(profile, opt_text(host.home), staging)
        + audio_steps(staging, xdg, existing) + dropzone_steps(staging, dropzone) + font_steps(
        staging,
        existing,
    ) + net_steps(staging, net_files(), existing, all_bytes(host.directories@)) + pivot_steps(
        staging,
    )
}

spec fn opening(staging: Seq<u8>, state: StagingState) -> Seq<StepView> {
    seq![private_step()] + (if state is Missing {
        seq![must(OpView::CreateDirs { path: staging })]
    } else {
        seq![]
    }) + seq![
        must(OpView::SetMode { path: staging, mode: 0o700 }),
        must(fresh("tmpfs", staging, seq![], Some("mode=755"))),
    ]
}

proof fn lemma_plan_in_two(profile: Seq<char>, dropzone: Option<Seq<u8>>, host: Host)
    ensures
        isolation_steps(profile, dropzone, host) == opening(
            staging_dir(opt_text(host.xdg_runtime_dir)),
            host.staging,
        ) + behind_opening(profile, dropzone, host),
        forall|k: int|
            0 <= k < staging_steps(
                staging_dir(opt_text(host.xdg_runtime_dir)),
                host.staging,
            ).len() ==> #[trigger] isolation_steps(profile, dropzone, host)[1 + k]
                == staging_steps(staging_dir(opt_text(host.xdg_runtime_dir)), host.staging)[k],
{
    let xdg = opt_text(host.xdg_runtime_dir);
    let existing = all_bytes(host.existing@);
    let staging = staging_dir(xdg);
    let first = opening(staging, host.staging);
    let a = made_dirs(staging, root_dirs());
    assert(seq![private_step()] + staging_steps(staging, host.staging) =~= first + a);
    let b = system_steps(staging, existing);
    let c = pseudo_steps(staging);
    let d = device_steps(staging, existing);
    let e = overlay_steps(profile, opt_text(host.home), staging);
    let f = audio_steps(staging, xdg, existing);
    let g = dropzone_steps(staging, dropzone);
    let h = font_steps(staging, existing);
    let i = net_steps(staging, net_files(), existing, all_bytes(host.directories@));
    let j = pivot_steps(staging);
    let whole = isolation_steps(profile, dropzone, host);
    let start = seq![private_step()] + staging_steps(staging, host.staging);
    assert(whole == start + b + c + d + e + f + g + (h + i) + j);
    lemma_assoc(start + b + c + d + e + f + g, h, i);
    lemma_assoc(first, a, b);
    lemma_assoc(first, a + b, c);
    lemma_assoc(first, a + b + c, d);
    lemma_assoc(first, a + b + c + d, e);
    lemma_assoc(first, a + b + c + d + e, f);
    lemma_assoc(first, a + b + c + d + e + f, g);
    lemma_assoc(first, a + b + c + d + e + f + g, h);
    lemma_assoc(first, a + b + c + d + e + f + g + h, i);
    lemma_assoc(first, a + b + c + d + e + f + g + h + i, j);
    let opened = staging_steps(staging, host.staging);
    let rest = behind_opening(profile, dropzone, host);
    assert forall|k: int| 0 <= k < opened.len() implies #[trigger] whole[1 + k] == opened[k] by {
        assert(start[1 + k] == opened[k]);
        assert(start == first + a);
        if 1 + k < first.len() {
            assert(whole[1 + k] == first[1 + k]);
        } else {
            let m = 1 + k - first.len();
            assert(whole[1 + k] == rest[m]);
            assert(start[1 + k] == a[m]);
            lemma_front(a, b + c + d + e + f + g + h + i + j, m);
            lemma_assoc(a, b, c);
            lemma_assoc(a, b + c, d);
            lemma_assoc(a, b + c + d, e);
            lemma_assoc(a, b + c + d + e, f);
            lemma_assoc(a, b + c + d + e + f, g);
            lemma_assoc(a, b + c + d + e + f + g, h);
            lemma_assoc(a, b + c + d + e + f + g + h, i);
            lemma_assoc(a, b + c + d + e + f + g + h + i, j);
        }
    }
}

proof fn lemma_assoc(a: Seq<StepView>, b: Seq<StepView>, c: Seq<StepView>)
    ensures
        a + b + c == a + (b + c),
{
    assert(a + b + c =~= a + (b + c));
}

proof fn lemma_front(a: Seq<StepView>, b: Seq<StepView>, k: int)
    requires
        0 <= k < a.len(),
    ensures
        (a + b)[k] == a[k],
{
}

/// Whether a step makes a place.
pub open spec fn makes(step: StepView, place: Seq<u8>) -> bool {
    ||| step.op == (OpView::CreateDirs { path: place })
    ||| step.op == (OpView::CreateFile { path: place })
}

spec fn made(steps: Seq<StepView>, place: Seq<u8>) -> bool {
    exists|j: int| 0 <= j < steps.len() && makes(#[trigger] steps[j], place)
}

/// Whether each place at which something is mounted has been made, by the steps
/// before or by earlier ones.
spec fn are_placed(before: Seq<StepView>, steps: Seq<StepView>) -> bool {
    forall|k: int|
        0 <= k < steps.len() ==> (#[trigger] steps[k].op matches OpView::Mount { target, .. }
            ==> made(before + steps.take(k), target))
}

proof fn lemma_made_in_more(a: Seq<StepView>, b: Seq<StepView>, c: Seq<StepView>, place: Seq<u8>)
    ensures
        made(a, place) || made(b, place) || made(c, place) ==> made(a + b + c, place),
{
    let all = a + b + c;
    if made(a, place) {
        let j = choose|j: int| 0 <= j < a.len() && makes(#[trigger] a[j], place);
        assert(all[j] == a[j]);
    }
    if made(b, place) {
        let j = choose|j: int| 0 <= j < b.len() && makes(#[trigger] b[j], place);
        assert(all[a.len() + j] == b[j]);
    }
    if made(c, place) {
        let j = choose|j: int| 0 <= j < c.len() && makes(#[trigger] c[j], place);
        assert(all[a.len() + b.len() + j] == c[j]);
    }
}

/// Steps whose places have been made find them made behind more steps, too.
proof fn lemma_placed_behind_more(a: Seq<StepView>, b: Seq<StepView>, steps: Seq<StepView>)
    requires
        are_placed(a, steps),
    ensures
        are_placed(a + b, steps),
{
    assert forall|k: int| 0 <= k < steps.len() implies (
    #[trigger] steps[k].op matches OpView::Mount { target, .. } ==> made(
        a + b + steps.take(k),
        target,
    )) by {
        if let OpView::Mount { target, .. } = steps[k].op {
            let j = choose|j: int|
                0 <= j < (a + steps.take(k)).len() && makes(
                    #[trigger] (a + steps.take(k))[j],
                    target,
                );
            if j < a.len() {
                assert(makes(a[j], target));
            } else {
                assert(makes(steps.take(k)[j - a.len()], target));
            }
            lemma_made_in_more(a, b, steps.take(k), target);
        }
    }
}

proof fn lemma_placed_concat(before: Seq<StepView>, a: Seq<StepView>, b: Seq<StepView>)
    requires
        are_placed(before, a),
        are_placed(before + a, b),
    ensures
        are_placed(before, a + b),
{
    let c = a + b;
    assert forall|k: int| 0 <= k < c.len() implies (
    #[trigger] c[k].op matches OpView::Mount { target, .. } ==> made(
        before + c.take(k),
        target,
    )) by {
        if k < a.len() {
            assert(c[k] == a[k]);
            assert(c.take(k) =~= a.take(k));
        } else {
            let m = k - a.len();
            assert(c[k] == b[m]);
            assert(before + c.take(k) =~= before + a + b.take(m));
        }
    }
}

proof fn lemma_steps_for_placed(
    before: Seq<StepView>,
    staging: Seq<u8>,
    paths: Seq<(&'static str, &'static str)>,
    existing: Seq<Seq<u8>>,
    steps: spec_fn((&'static str, &'static str)) -> Seq<StepView>,
)
    requires
        forall|k: int| 0 <= k < paths.len() ==> are_placed(before, #[trigger] steps(paths[k])),
    ensures
        are_placed(before, steps_for(staging, paths, existing, steps)),
    decreases paths.len(),
{
    if paths.len() > 0 {
        let rest = paths.drop_last();
        assert forall|k: int| 0 <= k < rest.len() implies are_placed(
            before,
            #[trigger] steps(rest[k]),
        ) by {
            assert(rest[k] == paths[k]);
        }
        lemma_steps_for_placed(before, staging, rest, existing, steps);
        let sofar = steps_for(staging, rest, existing, steps);
        assert(are_placed(before, steps(paths[paths.len() - 1])));
        lemma_placed_behind_more(before, sofar, steps(paths.last()));
        lemma_placed_concat(before, sofar, steps(paths.last()));
    }
}

proof fn lemma_root_dir_made(staging: Seq<u8>, i: int)
    requires
        0 <= i < root_dirs().len(),
    ensures
        made(made_dirs(staging, root_dirs()), inside(staging, root_dirs()[i])),
{
    let dirs = made_dirs(staging, root_dirs());
    assert(makes(dirs[i], inside(staging, root_dirs()[i])));
}

proof fn lemma_root_dirs_made(staging: Seq<u8>)
    ensures
        made(made_dirs(staging, root_dirs()), inside(staging, "usr")),
        made(made_dirs(staging, root_dirs()), inside(staging, "bin")),
        made(made_dirs(staging, root_dirs()), inside(staging, "sbin")),
        made(made_dirs(staging, root_dirs()), inside(staging, "lib")),
        made(made_dirs(staging, root_dirs()), inside(staging, "lib64")),
        made(made_dirs(staging, root_dirs()), inside(staging, "usr/lib32")),
        made(made_dirs(staging, root_dirs()), inside(staging, "dev")),
        made(made_dirs(staging, root_dirs()), inside(staging, "dev/dri")),
        made(made_dirs(staging, root_dirs()), inside(staging, "tmp")),
        made(made_dirs(staging, root_dirs()), inside(staging, "proc")),
        made(made_dirs(staging, root_dirs()), inside(staging, "sys")),
        made(made_dirs(staging, root_dirs()), inside(staging, "home/user/.wine")),
{
    assert(root_dirs()[0] == "usr");
    lemma_root_dir_made(staging, 0);
    assert(root_dirs()[1] == "bin");
    lemma_root_dir_made(staging, 1);
    assert(root_dirs()[2] == "sbin");
    lemma_root_dir_made(staging, 2);
    assert(root_dirs()[3] == "lib");
    lemma_root_dir_made(staging, 3);
    assert(root_dirs()[4] == "lib64");
    lemma_root_dir_made(staging, 4);
    assert(root_dirs()[5] == "usr/lib32");
    lemma_root_dir_made(staging, 5);
    assert(root_dirs()[6] == "dev");
    lemma_root_dir_made(staging, 6);
    assert(root_dirs()[7] == "dev/dri");
    lemma_root_dir_made(staging, 7);
    assert(root_dirs()[8] == "tmp");
    lemma_root_dir_made(staging, 8);
    assert(root_dirs()[9] == "proc");
    lemma_root_dir_made(staging, 9);
    assert(root_dirs()[10] == "sys");
    lemma_root_dir_made(staging, 10);
    assert(root_dirs()[11] == "home/user/.wine");
    lemma_root_dir_made(staging, 11);
}

proof fn lemma_made_before(before: Seq<StepView>, steps: Seq<StepView>, k: int, place: Seq<u8>)
    requires
        0 <= k <= steps.len(),
        made(before, place) || made(steps.take(k), place),
    ensures
        made(before + steps.take(k), place),
{
    let none: Seq<StepView> = seq![];
    lemma_made_in_more(before, steps.take(k), none, place);
    assert(before + steps.take(k) + none =~= before + steps.take(k));
}

proof fn lemma_system_placed(staging: Seq<u8>, existing: Seq<Seq<u8>>)
    ensures
        are_placed(made_dirs(staging, root_dirs()), system_steps(staging, existing)),
{
    let before = made_dirs(staging, root_dirs());
    lemma_root_dirs_made(staging);
    let f = |d: (&'static str, &'static str)| system_dir_steps(staging, d);
    let dirs = system_dirs();
    assert forall|k: int| 0 <= k < dirs.len() implies are_placed(
        before,
        #[trigger] f(dirs[k]),
    ) by {
        let s = system_dir_steps(staging, dirs[k]);
        let place = inside(staging, dirs[k].1);
        assert(made(before, place));
        lemma_made_before(before, s, 0, place);
        lemma_made_before(before, s, 1, place);
    }
    lemma_steps_for_placed(before, staging, dirs, existing, f);
    let shown = steps_for(staging, dirs, existing, f);
    let place = inside(staging, "dev/dri");
    let dri = seq![must(bound(utf8("/dev/dri"@), place))];
    lemma_made_before(before, dri, 0, place);
    assert(are_placed(before, dri));
    lemma_placed_behind_more(before, shown, dri);
    lemma_placed_concat(before, shown, dri);
    assert(shown + dri =~= shown.push(dri[0]));
}

proof fn lemma_pseudo_placed(staging: Seq<u8>)
    ensures
        are_placed(made_dirs(staging, root_dirs()), pseudo_steps(staging)),
{
    let before = made_dirs(staging, root_dirs());
    lemma_root_dirs_made(staging);
    let s = pseudo_steps(staging);
    lemma_made_before(before, s, 0, inside(staging, "sys"));
    lemma_made_before(before, s, 1, inside(staging, "sys"));
    lemma_made_before(before, s, 2, inside(staging, "sys"));
    assert(makes(s.take(4)[3], inside(staging, "dev/shm")));
    lemma_made_before(before, s, 4, inside(staging, "dev/shm"));
    lemma_made_before(before, s, 5, inside(staging, "tmp"));
    lemma_made_before(before, s, 6, inside(staging, "proc"));
}

proof fn lemma_device_placed(before: Seq<StepView>, staging: Seq<u8>, existing: Seq<Seq<u8>>)
    ensures
        are_placed(before, device_steps(staging, existing)),
{
    let f = |d: (&'static str, &'static str)| device_node_steps(staging, d);
    let nodes = device_nodes();
    assert forall|k: int| 0 <= k < nodes.len() implies are_placed(
        before,
        #[trigger] f(nodes[k]),
    ) by {
        let s = device_node_steps(staging, nodes[k]);
        let place = inside(staging, nodes[k].1);
        assert(makes(s.take(1)[0], place));
        lemma_made_before(before, s, 1, place);
    }
    lemma_steps_for_placed(before, staging, nodes, existing, f);
}

proof fn lemma_overlay_placed(
    before: Seq<StepView>,
    profile: Seq<char>,
    home: Option<Seq<char>>,
    staging: Seq<u8>,
)
    ensures
        are_placed(before, overlay_steps(profile, home, staging)),
{
    let s = overlay_steps(profile, home, staging);
    let overlay = inside(staging, ".swine_overlay");
    let lower = inside(overlay, "lower");
    let upper = inside(overlay, "profile");
    assert(makes(s.take(5)[3], lower));
    assert(makes(s.take(6)[3], lower));
    assert(makes(s.take(7)[4], upper));
    lemma_made_before(before, s, 5, lower);
    lemma_made_before(before, s, 6, lower);
    lemma_made_before(before, s, 7, upper);
}

proof fn lemma_shown_placed(
    before: Seq<StepView>,
    staging: Seq<u8>,
    xdg: Option<Seq<char>>,
    existing: Seq<Seq<u8>>,
    dropzone: Option<Seq<u8>>,
)
    ensures
        are_placed(before, audio_steps(staging, xdg, existing)),
        are_placed(before, dropzone_steps(staging, dropzone)),
        are_placed(before, font_steps(staging, existing)),
{
    let s = audio_steps(staging, xdg, existing);
    if s.len() > 0 {
        let place = inside(staging, "run/user/1000/pulse/native");
        assert(makes(s.take(2)[1], place));
        lemma_made_before(before, s, 2, place);
    }
    let s = dropzone_steps(staging, dropzone);
    if s.len() > 0 {
        let place = inside(staging, "workspace");
        assert(makes(s.take(1)[0], place));
        assert(makes(s.take(2)[0], place));
        lemma_made_before(before, s, 1, place);
        lemma_made_before(before, s, 2, place);
    }
    let s = font_steps(staging, existing);
    if s.len() > 0 {
        let place = inside(staging, "etc/fonts");
        assert(makes(s.take(1)[0], place));
        assert(makes(s.take(2)[0], place));
        lemma_made_before(before, s, 1, place);
        lemma_made_before(before, s, 2, place);
    }
}

proof fn lemma_net_placed(
    before: Seq<StepView>,
    staging: Seq<u8>,
    files: Seq<(&'static str, &'static str, &'static str)>,
    existing: Seq<Seq<u8>>,
    directories: Seq<Seq<u8>>,
)
    ensures
        are_placed(before, net_steps(staging, files, existing, directories)),
    decreases files.len(),
{
    if files.len() > 0 {
        let rest = files.drop_last();
        lemma_net_placed(before, staging, rest, existing, directories);
        let sofar = net_steps(staging, rest, existing, directories);
        let file = files.last();
        let s = net_file_steps(staging, file, directories.contains(utf8(file.0@)));
        let place = inside(staging, file.1);
        assert(makes(s.take(2)[1], place));
        assert(makes(s.take(3)[1], place));
        lemma_made_before(before, s, 2, place);
        lemma_made_before(before, s, 3, place);
        assert(are_placed(before, s));
        lemma_placed_behind_more(before, sofar, s);
        lemma_placed_concat(before, sofar, s);
    }
}

proof fn lemma_next_placed(a: Seq<StepView>, b: Seq<StepView>, c: Seq<StepView>)
    requires
        are_placed(seq![], a + b),
        are_placed(a, c),
    ensures
        are_placed(seq![], a + b + c),
{
    let none: Seq<StepView> = seq![];
    lemma_placed_behind_more(a, b, c);
    assert(none + (a + b) =~= a + b);
    lemma_placed_concat(none, a + b, c);
}

proof fn lemma_behind_opening_placed(profile: Seq<char>, dropzone: Option<Seq<u8>>, host: Host)
    ensures
        are_placed(seq![], behind_opening(profile, dropzone, host)),
{
    let none: Seq<StepView> = seq![];
    let xdg = opt_text(host.xdg_runtime_dir);
    let existing = all_bytes(host.existing@);
    let staging = staging_dir(xdg);
    let directories = all_bytes(host.directories@);
    let a = made_dirs(staging, root_dirs());
    assert(are_placed(none, a));
    assert(a + none =~= a);
    let b = system_steps(staging, existing);
    lemma_system_placed(staging, existing);
    lemma_next_placed(a, none, b);
    let c = pseudo_steps(staging);
    lemma_pseudo_placed(staging);
    lemma_next_placed(a, b, c);
    let d = device_steps(staging, existing);
    lemma_device_placed(a, staging, existing);
    assert(a + b + c =~= a + (b + c));
    lemma_next_placed(a, b + c, d);
    let e = overlay_steps(profile, opt_text(host.home), staging);
    lemma_overlay_placed(a, profile, opt_text(host.home), staging);
    assert(a + b + c + d =~= a + (b + c + d));
    assert(a + (b + c) + d =~= a + (b + c + d));
    lemma_next_placed(a, b + c + d, e);
    let f = audio_steps(staging, xdg, existing);
    let g = dropzone_steps(staging, dropzone);
    let h = font_steps(staging, existing);
    lemma_shown_placed(a, staging, xdg, existing, dropzone);
    assert(a + (b + c + d) + e =~= a + (b + c + d + e));
    lemma_next_placed(a, b + c + d + e, f);
    assert(a + (b + c + d + e) + f =~= a + (b + c + d + e + f));
    lemma_next_placed(a, b + c + d + e + f, g);
    assert(a + (b + c + d + e + f) + g =~= a + (b + c + d + e + f + g));
    lemma_next_placed(a, b + c + d + e + f + g, h);
    let i = net_steps(staging, net_files(), existing, directories);
    lemma_net_placed(a, staging, net_files(), existing, directories);
    assert(a + (b + c + d + e + f + g) + h =~= a + (b + c + d + e + f + g + h));
    lemma_next_placed(a, b + c + d + e + f + g + h, i);
    let j = pivot_steps(staging);
    assert(are_placed(a, j));
    assert(a + (b + c + d + e + f + g + h) + i =~= a + (b + c + d + e + f + g + h + i));
    lemma_next_placed(a, b + c + d + e + f + g + h + i, j);
    assert(behind_opening(profile, dropzone, host) =~= a + (b + c + d + e + f + g + h + i) + j);
}

/// Every place is made before something is mounted on it: behind the file system
/// in memory that covers the place of the new root, each mount finds its target
/// made by an earlier step, which stands behind it, too.
pub proof fn law_every_place_is_made_first(
    profile: Seq<char>,
    dropzone: Option<Seq<u8>>,
    host: Host,
    at: int,
    k: int,
)
    requires
        at == if host.staging is Missing {
            3int
        } else {
            2
        },
        at < k < isolation_steps(profile, dropzone, host).len(),
        isolation_steps(profile, dropzone, host)[k].op is Mount,
    ensures
        isolation_steps(profile, dropzone, host)[at].op matches OpView::Mount {
            target,
            fstype,
            ..
        } && target == staging_dir(opt_text(host.xdg_runtime_dir)) && fstype == Some("tmpfs"),
        exists|j: int|
            at < j < k && makes(
                #[trigger] isolation_steps(profile, dropzone, host)[j],
                isolation_steps(profile, dropzone, host)[k].op->target,
            ),
{
    let steps = isolation_steps(profile, dropzone, host);
    let staging = staging_dir(opt_text(host.xdg_runtime_dir));
    let first = opening(staging, host.staging);
    let rest = behind_opening(profile, dropzone, host);
    lemma_plan_in_two(profile, dropzone, host);
    lemma_behind_opening_placed(profile, dropzone, host);
    let n = first.len() as int;
    let none: Seq<StepView> = seq![];
    assert(at == n - 1);
    assert(steps[at] == first[at]);
    assert(steps[k] == rest[k - n]);
    assert(none + rest.take(k - n) =~= rest.take(k - n));
    let place = steps[k].op->target;
    assert(made(rest.take(k - n), place));
    let j = choose|j: int|
        0 <= j < rest.take(k - n).len() && makes(#[trigger] rest.take(k - n)[j], place);
    assert(steps[n + j] == rest[j]);
}

/// The Wine prefix has its place: behind the file system in memory a step on which
/// the plan depends makes `home/user/.wine` in the new root, which behind the
/// change of the root is where the prefix is mounted.
pub proof fn law_wine_prefix_has_its_place(
    profile: Seq<char>,
    dropzone: Option<Seq<u8>>,
    host: Host,
)
    ensures
        ({
            let steps = isolation_steps(profile, dropzone, host);
            let staging = staging_dir(opt_text(host.xdg_runtime_dir));
            exists|at: int, j: int|
                {
                    &&& 0 <= at < j < steps.len()
                    &&& (#[trigger] steps[at]).op matches OpView::Mount { target, fstype, .. }
                        && target == staging && fstype == Some("tmpfs")
                    &&& #[trigger] steps[j] == (StepView {
                        op: OpView::CreateDirs {
                            path: joined(staging, utf8("home/user/.wine"@)),
                        },
                        guide: Guide { on_success: Flow::Next, on_failure: Flow::Abort },
                    })
                    &&& forall|i: int|
                        0 <= i < steps.len() && (#[trigger] steps[i]).op is PivotRoot ==> j < i
                }
        }),
        utf8(WINE_PREFIX@) == joined(utf8("/"@), utf8("home/user/.wine"@)),
        fuse_words().len() == 3 && fuse_words()[2]@ == WINE_PREFIX@ && fuse_words()[1]@
            == OVERLAY_OPTIONS@ && fuse_words()[0]@ == "-o"@,
        prefix_mount() == (OpView::Mount {
            source: Some(utf8("overlay"@)),
            target: joined(utf8("/"@), utf8("home/user/.wine"@)),
            fstype: Some("overlay"),
            flags: seq![],
            data: Some(
                "lowerdir=/.swine_overlay/lower,upperdir=/.swine_overlay/profile/upper,workdir=/.swine_overlay/profile/work",
            ),
        }),
{
    reveal(joined);
    reveal_strlit("/");
    reveal_strlit("home/user/.wine");
    reveal_strlit("/home/user/.wine");
    lemma_ascii_utf8("/"@);
    lemma_ascii_utf8("home/user/.wine"@);
    lemma_ascii_utf8("/home/user/.wine"@);
    assert(utf8(WINE_PREFIX@) =~= joined(utf8("/"@), utf8("home/user/.wine"@)));
    let steps = isolation_steps(profile, dropzone, host);
    let staging = staging_dir(opt_text(host.xdg_runtime_dir));
    let s = staging_steps(staging, host.staging);
    lemma_plan_in_two(profile, dropzone, host);
    law_plan_opens_with_an_empty_root(profile, dropzone, host);
    let at: int = if host.staging is Missing {
        3
    } else {
        2
    };
    let j = s.len() as int;
    assert(root_dirs()[11] == "home/user/.wine");
    assert(s[j - 1] == made_dirs(staging, root_dirs())[11]);
    assert(steps[1 + (j - 1)] == s[j - 1]);
    assert forall|i: int| 0 <= i < steps.len() && (#[trigger] steps[i]).op is PivotRoot implies j
        < i by {
        if i <= j && i > 0 {
            assert(steps[1 + (i - 1)] == s[i - 1]);
            if i > at {
                assert(s[i - 1] == made_dirs(staging, root_dirs())[i - at - 1]);
            }
        }
    }
}

/// The directories of the system that are there are shown where they are on the
/// host, and at once nothing in them can be changed or gives powers.
pub proof fn law_system_is_shown_read_only(
    profile: Seq<char>,
    dropzone: Option<Seq<u8>>,
    host: Host,
)
    ensures
        ({
            let steps = isolation_steps(profile, dropzone, host);
            let staging = staging_dir(opt_text(host.xdg_runtime_dir));
            let existing = all_bytes(host.existing@);
            &&& existing.contains(utf8("/usr"@)) ==> in_turn(
                steps,
                seq![
                    must(bound(utf8("/usr"@), joined(staging, utf8("usr"@)))),
                    must(sealed(joined(staging, utf8("usr"@)))),
                ],
            )
            &&& existing.contains(utf8("/lib"@)) ==> in_turn(
                steps,
                seq![
                    must(bound(utf8("/lib"@), joined(staging, utf8("lib"@)))),
                    must(sealed(joined(staging, utf8("lib"@)))),
                ],
            )
            &&& existing.contains(utf8("/lib64"@)) ==> in_turn(
                steps,
                seq![
                    must(bound(utf8("/lib64"@), joined(staging, utf8("lib64"@)))),
                    must(sealed(joined(staging, utf8("lib64"@)))),
                ],
            )
            &&& existing.contains(utf8("/usr/lib32"@)) ==> in_turn(
                steps,
                seq![
                    must(bound(utf8("/usr/lib32"@), joined(staging, utf8("usr/lib32"@)))),
                    must(sealed(joined(staging, utf8("usr/lib32"@)))),
                ],
            )
            &&& existing.contains(utf8("/bin"@)) ==> in_turn(
                steps,
                seq![
                    must(bound(utf8("/bin"@), joined(staging, utf8("bin"@)))),
                    must(sealed(joined(staging, utf8("bin"@)))),
                ],
            )
            &&& existing.contains(utf8("/sbin"@)) ==> in_turn(
                steps,
                seq![
                    must(bound(utf8("/sbin"@), joined(staging, utf8("sbin"@)))),
                    must(sealed(joined(staging, utf8("sbin"@)))),
                ],
            )
        }),
{
    let staging = staging_dir(opt_text(host.xdg_runtime_dir));
    let existing = all_bytes(host.existing@);
    let f = |d: (&'static str, &'static str)| system_dir_steps(staging, d);
    let dirs = system_dirs();
    assert(dirs[0] == ("/usr", "usr"));
    assert(dirs[1] == ("/lib", "lib"));
    assert(dirs[2] == ("/lib64", "lib64"));
    assert(dirs[3] == ("/usr/lib32", "usr/lib32"));
    assert(dirs[4] == ("/bin", "bin"));
    assert(dirs[5] == ("/sbin", "sbin"));
    assert forall|i: int| 0 <= i < 6 && existing.contains(utf8(dirs[i].0@)) implies in_turn(
        isolation_steps(profile, dropzone, host),
        #[trigger] system_dir_steps(staging, dirs[i]),
    ) by {
        let part = system_dir_steps(staging, dirs[i]);
        lemma_steps_for_in_turn(staging, dirs, existing, f, i);
        let shown = steps_for(staging, dirs, existing, f);
        let dri = seq![must(bound(utf8("/dev/dri"@), inside(staging, "dev/dri")))];
        lemma_in_turn_concat(shown, dri, part);
        assert(shown + dri =~= shown.push(dri[0]));
        lemma_part_of_plan(profile, dropzone, host, part);
    }
    assert(system_dir_steps(staging, dirs[0]) =~= seq![
        must(bound(utf8("/usr"@), joined(staging, utf8("usr"@)))),
        must(sealed(joined(staging, utf8("usr"@)))),
    ]);
    assert(system_dir_steps(staging, dirs[1]) =~= seq![
        must(bound(utf8("/lib"@), joined(staging, utf8("lib"@)))),
        must(sealed(joined(staging, utf8("lib"@)))),
    ]);
    assert(system_dir_steps(staging, dirs[2]) =~= seq![
        must(bound(utf8("/lib64"@), joined(staging, utf8("lib64"@)))),
        must(sealed(joined(staging, utf8("lib64"@)))),
    ]);
    assert(system_dir_steps(staging, dirs[3]) =~= seq![
        must(bound(utf8("/usr/lib32"@), joined(staging, utf8("usr/lib32"@)))),
        must(sealed(joined(staging, utf8("usr/lib32"@)))),
    ]);
    assert(system_dir_steps(staging, dirs[4]) =~= seq![
        must(bound(utf8("/bin"@), joined(staging, utf8("bin"@)))),
        must(sealed(joined(staging, utf8("bin"@)))),
    ]);
    assert(system_dir_steps(staging, dirs[5]) =~= seq![
        must(bound(utf8("/sbin"@), joined(staging, utf8("sbin"@)))),
        must(sealed(joined(staging, utf8("sbin"@)))),
    ]);
}

/// The devices that are there are shown where they are on the host, each on a
/// file of its own, and the graphics cards with all that belongs to them.
pub proof fn law_devices_are_shown(profile: Seq<char>, dropzone: Option<Seq<u8>>, host: Host)
    ensures
        ({
            let steps = isolation_steps(profile, dropzone, host);
            let staging = staging_dir(opt_text(host.xdg_runtime_dir));
            let existing = all_bytes(host.existing@);
            &&& existing.contains(utf8("/dev/dri"@)) ==> in_turn(
                steps,
                seq![must(bound(utf8("/dev/dri"@), joined(staging, utf8("dev/dri"@))))],
            )
            &&& existing.contains(utf8("/dev/null"@)) ==> in_turn(
                steps,
                seq![
                    may(OpView::CreateFile { path: joined(staging, utf8("dev/null"@)) }),
                    must(bound_file(utf8("/dev/null"@), joined(staging, utf8("dev/null"@)))),
                ],
            )
            &&& existing.contains(utf8("/dev/zero"@)) ==> in_turn(
                steps,
                seq![
                    may(OpView::CreateFile { path: joined(staging, utf8("dev/zero"@)) }),
                    must(bound_file(utf8("/dev/zero"@), joined(staging, utf8("dev/zero"@)))),
                ],
            )
            &&& existing.contains(utf8("/dev/urandom"@)) ==> in_turn(
                steps,
                seq![
                    may(OpView::CreateFile { path: joined(staging, utf8("dev/urandom"@)) }),
                    must(bound_file(utf8("/dev/urandom"@), joined(staging, utf8("dev/urandom"@)))),
                ],
            )
            &&& existing.contains(utf8("/dev/random"@)) ==> in_turn(
                steps,
                seq![
                    may(OpView::CreateFile { path: joined(staging, utf8("dev/random"@)) }),
                    must(bound_file(utf8("/dev/random"@), joined(staging, utf8("dev/random"@)))),
                ],
            )
            &&& existing.contains(utf8("/dev/fuse"@)) ==> in_turn(
                steps,
                seq![
                    may(OpView::CreateFile { path: joined(staging, utf8("dev/fuse"@)) }),
                    must(bound_file(utf8("/dev/fuse"@), joined(staging, utf8("dev/fuse"@)))),
                ],
            )
        }),
{
    let staging = staging_dir(opt_text(host.xdg_runtime_dir));
    let existing = all_bytes(host.existing@);
    let dri = seq![must(bound(utf8("/dev/dri"@), inside(staging, "dev/dri")))];
    if existing.contains(utf8("/dev/dri"@)) {
        let shown = steps_for(
            staging,
            system_dirs(),
            existing,
            |d: (&'static str, &'static str)| system_dir_steps(staging, d),
        );
        lemma_whole_in_turn(dri);
        lemma_in_turn_concat(shown, dri, dri);
        assert(shown + dri =~= system_steps(staging, existing));
        lemma_part_of_plan(profile, dropzone, host, dri);
    }
    let f = |d: (&'static str, &'static str)| device_node_steps(staging, d);
    let nodes = device_nodes();
    assert(nodes[0] == ("/dev/null", "dev/null"));
    assert(nodes[1] == ("/dev/zero", "dev/zero"));
    assert(nodes[2] == ("/dev/urandom", "dev/urandom"));
    assert(nodes[3] == ("/dev/random", "dev/random"));
    assert(nodes[4] == ("/dev/fuse", "dev/fuse"));
    assert forall|i: int| 0 <= i < 5 && existing.contains(utf8(nodes[i].0@)) implies in_turn(
        isolation_steps(profile, dropzone, host),
        #[trigger] device_node_steps(staging, nodes[i]),
    ) by {
        let part = device_node_steps(staging, nodes[i]);
        lemma_steps_for_in_turn(staging, nodes, existing, f, i);
        lemma_part_of_plan(profile, dropzone, host, part);
    }
    assert(device_node_steps(staging, nodes[0]) =~= seq![
        may(OpView::CreateFile { path: joined(staging, utf8("dev/null"@)) }),
        must(bound_file(utf8("/dev/null"@), joined(staging, utf8("dev/null"@)))),
    ]);
    assert(device_node_steps(staging, nodes[1]) =~= seq![
        may(OpView::CreateFile { path: joined(staging, utf8("dev/zero"@)) }),
        must(bound_file(utf8("/dev/zero"@), joined(staging, utf8("dev/zero"@)))),
    ]);
    assert(device_node_steps(staging, nodes[2]) =~= seq![
        may(OpView::CreateFile { path: joined(staging, utf8("dev/urandom"@)) }),
        must(bound_file(utf8("/dev/urandom"@), joined(staging, utf8("dev/urandom"@)))),
    ]);
    assert(device_node_steps(staging, nodes[3]) =~= seq![
        may(OpView::CreateFile { path: joined(staging, utf8("dev/random"@)) }),
        must(bound_file(utf8("/dev/random"@), joined(staging, utf8("dev/random"@)))),
    ]);
    assert(device_node_steps(staging, nodes[4]) =~= seq![
        may(OpView::CreateFile { path: joined(staging, utf8("dev/fuse"@)) }),
        must(bound_file(utf8("/dev/fuse"@), joined(staging, utf8("dev/fuse"@)))),
    ]);
}

/// The file systems of the kernel and those in memory are mounted afresh, with no
/// powers and no devices; where the system tree cannot be mounted, that of the
/// host is shown and sealed.
pub proof fn law_kernel_trees_are_fresh(profile: Seq<char>, dropzone: Option<Seq<u8>>, host: Host)
    ensures
        ({
            let staging = staging_dir(opt_text(host.xdg_runtime_dir));
            let strict = seq![MountFlag::NoSuid, MountFlag::NoDev, MountFlag::NoExec];
            in_turn(
                isolation_steps(profile, dropzone, host),
                seq![
                    StepView {
                        op: OpView::Mount {
                            source: Some(utf8("sysfs"@)),
                            target: joined(staging, utf8("sys"@)),
                            fstype: Some("sysfs"),
                            flags: strict,
                            data: None,
                        },
                        guide: Guide { on_success: Flow::Skip(2), on_failure: Flow::Next },
                    },
                    must(bound_file(utf8("/sys"@), joined(staging, utf8("sys"@)))),
                    must(sealed_sys(joined(staging, utf8("sys"@)))),
                    may(OpView::CreateDirs { path: joined(staging, utf8("dev/shm"@)) }),
                    must(
                        OpView::Mount {
                            source: Some(utf8("tmpfs"@)),
                            target: joined(staging, utf8("dev/shm"@)),
                            fstype: Some("tmpfs"),
                            flags: strict,
                            data: Some("mode=1777"),
                        },
                    ),
                    must(
                        OpView::Mount {
                            source: Some(utf8("tmpfs"@)),
                            target: joined(staging, utf8("tmp"@)),
                            fstype: Some("tmpfs"),
                            flags: seq![MountFlag::NoSuid, MountFlag::NoDev],
                            data: Some("mode=1777"),
                        },
                    ),
                    must(
                        OpView::Mount {
                            source: Some(utf8("proc"@)),
                            target: joined(staging, utf8("proc"@)),
                            fstype: Some("proc"),
                            flags: strict,
                            data: None,
                        },
                    ),
                ],
            )
        }),
{
    let staging = staging_dir(opt_text(host.xdg_runtime_dir));
    lemma_whole_in_turn(pseudo_steps(staging));
    lemma_part_of_plan(profile, dropzone, host, pseudo_steps(staging));
}

/// The two layers of the Wine prefix: the shared prefix can only be read, and the
/// data of the profile, with its upper layer and its work, is the profile's own.
pub proof fn law_prefix_has_two_layers(profile: Seq<char>, dropzone: Option<Seq<u8>>, host: Host)
    ensures
        ({
            let base = base_prefix(opt_text(host.home));
            let data = data_dir(opt_text(host.home), profile);
            let staging = staging_dir(opt_text(host.xdg_runtime_dir));
            let overlay = joined(staging, utf8(".swine_overlay"@));
            in_turn(
                isolation_steps(profile, dropzone, host),
                seq![
                    may(OpView::CreateDirs { path: base }),
                    may(OpView::CreateDirs { path: joined(data, utf8("upper"@)) }),
                    may(OpView::CreateDirs { path: joined(data, utf8("work"@)) }),
                    may(OpView::CreateDirs { path: joined(overlay, utf8("lower"@)) }),
                    may(OpView::CreateDirs { path: joined(overlay, utf8("profile"@)) }),
                    must(bound(base, joined(overlay, utf8("lower"@)))),
                    must(read_only(joined(overlay, utf8("lower"@)))),
                    must(bound(data, joined(overlay, utf8("profile"@)))),
                ],
            )
        }),
{
    let staging = staging_dir(opt_text(host.xdg_runtime_dir));
    let part = overlay_steps(profile, opt_text(host.home), staging);
    lemma_whole_in_turn(part);
    lemma_part_of_plan(profile, dropzone, host, part);
}

/// A dropzone is shown as `/workspace` and can only be read there; without one
/// there is no such place.
pub proof fn law_dropzone_is_the_workspace(dz: Seq<u8>, profile: Seq<char>, host: Host)
    ensures
        ({
            let place = joined(
                staging_dir(opt_text(host.xdg_runtime_dir)),
                utf8("workspace"@),
            );
            in_turn(
                isolation_steps(profile, Some(dz), host),
                seq![
                    must(OpView::CreateDirs { path: place }),
                    must(bound(dz, place)),
                    must(read_only(place)),
                ],
            )
        }),
        isolation_steps(profile, Some(dz), host).len() == isolation_steps(profile, None, host).len()
            + 3,
{
    let staging = staging_dir(opt_text(host.xdg_runtime_dir));
    let part = dropzone_steps(staging, Some(dz));
    lemma_whole_in_turn(part);
    lemma_part_of_plan(profile, Some(dz), host, part);
    law_plan_has_no_other_steps(profile, Some(dz), host);
    law_plan_has_no_other_steps(profile, None, host);
}

/// The sound server of the session is reached where a session of the sandboxed
/// user would have it, if it is there; the sandbox does without it.
pub proof fn law_sound_is_shown(
    profile: Seq<char>,
    dropzone: Option<Seq<u8>>,
    host: Host,
    dir: Seq<char>,
)
    requires
        opt_text(host.xdg_runtime_dir) == Some(dir),
        all_bytes(host.existing@).contains(joined(utf8(dir), utf8("pulse/native"@))),
    ensures
        ({
            let staging = staging_dir(Some(dir));
            in_turn(
                isolation_steps(profile, dropzone, host),
                seq![
                    may(
                        OpView::CreateDirs {
                            path: joined(staging, utf8("run/user/1000/pulse"@)),
                        },
                    ),
                    may(
                        OpView::CreateFile {
                            path: joined(staging, utf8("run/user/1000/pulse/native"@)),
                        },
                    ),
                    may(
                        bound(
                            joined(utf8(dir), utf8("pulse/native"@)),
                            joined(staging, utf8("run/user/1000/pulse/native"@)),
                        ),
                    ),
                ],
            )
        }),
{
    let staging = staging_dir(Some(dir));
    let part = audio_steps(staging, Some(dir), all_bytes(host.existing@));
    lemma_whole_in_turn(part);
    lemma_part_of_plan(profile, dropzone, host, part);
}

/// The fonts and what names on the network are resolved by are shown where they
/// are on the host, if they are there, and can only be read; the sandbox does
/// without them.
pub proof fn law_network_files_are_shown(profile: Seq<char>, dropzone: Option<Seq<u8>>, host: Host)
    ensures
        ({
            let steps = isolation_steps(profile, dropzone, host);
            let staging = staging_dir(opt_text(host.xdg_runtime_dir));
            let existing = all_bytes(host.existing@);
            let directories = all_bytes(host.directories@);
            &&& existing.contains(utf8("/etc/fonts"@)) ==> in_turn(
                steps,
                seq![
                    may(OpView::CreateDirs { path: joined(staging, utf8("etc/fonts"@)) }),
                    may(bound(utf8("/etc/fonts"@), joined(staging, utf8("etc/fonts"@)))),
                    may(read_only(joined(staging, utf8("etc/fonts"@)))),
                ],
            )
            &&& existing.contains(utf8("/etc/resolv.conf"@)) ==> in_turn(
                steps,
                seq![
                    may(OpView::CreateDirs { path: joined(staging, utf8("etc"@)) }),
                    may(
                        if directories.contains(utf8("/etc/resolv.conf"@)) {
                            OpView::CreateDirs { path: joined(staging, utf8("etc/resolv.conf"@)) }
                        } else {
                            OpView::CreateFile { path: joined(staging, utf8("etc/resolv.conf"@)) }
                        },
                    ),
                    may(bound(utf8("/etc/resolv.conf"@), joined(staging, utf8("etc/resolv.conf"@)))),
                    may(read_only(joined(staging, utf8("etc/resolv.conf"@)))),
                ],
            )
            &&& existing.contains(utf8("/etc/nsswitch.conf"@)) ==> in_turn(
                steps,
                seq![
                    may(OpView::CreateDirs { path: joined(staging, utf8("etc"@)) }),
                    may(
                        if directories.contains(utf8("/etc/nsswitch.conf"@)) {
                            OpView::CreateDirs { path: joined(staging, utf8("etc/nsswitch.conf"@)) }
                        } else {
                            OpView::CreateFile { path: joined(staging, utf8("etc/nsswitch.conf"@)) }
                        },
                    ),
                    may(bound(utf8("/etc/nsswitch.conf"@), joined(staging, utf8("etc/nsswitch.conf"@)))),
                    may(read_only(joined(staging, utf8("etc/nsswitch.conf"@)))),
                ],
            )
            &&& existing.contains(utf8("/etc/ssl/certs"@)) ==> in_turn(
                steps,
                seq![
                    may(OpView::CreateDirs { path: joined(staging, utf8("etc/ssl"@)) }),
                    may(
                        if directories.contains(utf8("/etc/ssl/certs"@)) {
                            OpView::CreateDirs { path: joined(staging, utf8("etc/ssl/certs"@)) }
                        } else {
                            OpView::CreateFile { path: joined(staging, utf8("etc/ssl/certs"@)) }
                        },
                    ),
                    may(bound(utf8("/etc/ssl/certs"@), joined(staging, utf8("etc/ssl/certs"@)))),
                    may(read_only(joined(staging, utf8("etc/ssl/certs"@)))),
                ],
            )
            &&& existing.contains(utf8("/etc/ca-certificates"@)) ==> in_turn(
                steps,
                seq![
                    may(OpView::CreateDirs { path: joined(staging, utf8("etc"@)) }),
                    may(
                        if directories.contains(utf8("/etc/ca-certificates"@)) {
                            OpView::CreateDirs { path: joined(staging, utf8("etc/ca-certificates"@)) }
                        } else {
                            OpView::CreateFile { path: joined(staging, utf8("etc/ca-certificates"@)) }
                        },
                    ),
                    may(bound(utf8("/etc/ca-certificates"@), joined(staging, utf8("etc/ca-certificates"@)))),
                    may(read_only(joined(staging, utf8("etc/ca-certificates"@)))),
                ],
            )
        }),
{
    let staging = staging_dir(opt_text(host.xdg_runtime_dir));
    let existing = all_bytes(host.existing@);
    let directories = all_bytes(host.directories@);
    if existing.contains(utf8("/etc/fonts"@)) {
        lemma_whole_in_turn(font_steps(staging, existing));
        lemma_part_of_plan(profile, dropzone, host, font_steps(staging, existing));
    }
    let files = net_files();
    assert(files[0] == ("/etc/resolv.conf", "etc/resolv.conf", "etc"));
    assert(files[1] == ("/etc/nsswitch.conf", "etc/nsswitch.conf", "etc"));
    assert(files[2] == ("/etc/ssl/certs", "etc/ssl/certs", "etc/ssl"));
    assert(files[3] == ("/etc/ca-certificates", "etc/ca-certificates", "etc"));
    assert forall|i: int| 0 <= i < 4 && existing.contains(utf8(files[i].0@)) implies in_turn(
        isolation_steps(profile, dropzone, host),
        #[trigger] net_file_steps(staging, files[i], directories.contains(utf8(files[i].0@))),
    ) by {
        let part = net_file_steps(staging, files[i], directories.contains(utf8(files[i].0@)));
        lemma_net_in_turn(staging, files, existing, directories, i);
        lemma_part_of_plan(profile, dropzone, host, part);
    }
    assert(net_file_steps(staging, files[0], directories.contains(utf8("/etc/resolv.conf"@))).len() == 4);
    assert(net_file_steps(staging, files[1], directories.contains(utf8("/etc/nsswitch.conf"@))).len() == 4);
    assert(net_file_steps(staging, files[2], directories.contains(utf8("/etc/ssl/certs"@))).len() == 4);
    assert(net_file_steps(staging, files[3], directories.contains(utf8("/etc/ca-certificates"@))).len() == 4);
}

/// How every plan ends: the new root takes the place of the old one, which is let
/// go of behind it.
pub proof fn law_plan_ends_in_the_new_root(
    profile: Seq<char>,
    dropzone: Option<Seq<u8>>,
    host: Host,
)
    ensures
        ({
            let steps = isolation_steps(profile, dropzone, host);
            let staging = staging_dir(opt_text(host.xdg_runtime_dir));
            steps.len() > 6 && steps.skip(steps.len() - 6) == seq![
                must(OpView::ChangeDir { path: staging }),
                must(OpView::CreateDirs { path: utf8("put_old"@) }),
                must(OpView::PivotRoot { new_root: utf8("."@), put_old: utf8("put_old"@) }),
                must(OpView::ChangeDir { path: utf8("/"@) }),
                must(OpView::Detach { path: utf8("/put_old"@) }),
                may(OpView::RemoveDir { path: utf8("/put_old"@) }),
            ]
        }),
{
    let steps = isolation_steps(profile, dropzone, host);
    let staging = staging_dir(opt_text(host.xdg_runtime_dir));
    assert(steps.skip(steps.len() - 6) =~= pivot_steps(staging));
}

/// Whatever the plan shows if it is there, the host is asked for.
pub proof fn law_all_that_is_shown_is_probed(dir: Seq<char>, xdg: Option<Seq<char>>)
    ensures
        ({
            let p = probed_paths(xdg);
            &&& p.contains(utf8("/usr"@))
            &&& p.contains(utf8("/lib"@))
            &&& p.contains(utf8("/lib64"@))
            &&& p.contains(utf8("/usr/lib32"@))
            &&& p.contains(utf8("/bin"@))
            &&& p.contains(utf8("/sbin"@))
            &&& p.contains(utf8("/dev/dri"@))
            &&& p.contains(utf8("/dev/null"@))
            &&& p.contains(utf8("/dev/zero"@))
            &&& p.contains(utf8("/dev/urandom"@))
            &&& p.contains(utf8("/dev/random"@))
            &&& p.contains(utf8("/dev/fuse"@))
            &&& p.contains(utf8("/etc/fonts"@))
            &&& p.contains(utf8("/etc/resolv.conf"@))
            &&& p.contains(utf8("/etc/nsswitch.conf"@))
            &&& p.contains(utf8("/etc/ssl/certs"@))
            &&& p.contains(utf8("/etc/ca-certificates"@))
            &&& xdg == Some(dir) ==> p.contains(joined(utf8(dir), utf8("pulse/native"@)))
        }),
{
    let p = probed_paths(xdg);
    assert(p[0] == utf8("/usr"@));
    assert(p[1] == utf8("/lib"@));
    assert(p[2] == utf8("/lib64"@));
    assert(p[3] == utf8("/usr/lib32"@));
    assert(p[4] == utf8("/bin"@));
    assert(p[5] == utf8("/sbin"@));
    assert(p[6] == utf8("/dev/dri"@));
    assert(p[7] == utf8("/dev/null"@));
    assert(p[8] == utf8("/dev/zero"@));
    assert(p[9] == utf8("/dev/urandom"@));
    assert(p[10] == utf8("/dev/random"@));
    assert(p[11] == utf8("/dev/fuse"@));
    assert(p[12] == utf8("/etc/fonts"@));
    assert(p[13] == utf8("/etc/resolv.conf"@));
    assert(p[14] == utf8("/etc/nsswitch.conf"@));
    assert(p[15] == utf8("/etc/ssl/certs"@));
    assert(p[16] == utf8("/etc/ca-certificates"@));
    if xdg is Some {
        assert(p[17] == joined(utf8(xdg->0), utf8("pulse/native"@)));
    }
}

/// Whether a mount that shows something of the host shows it where it belongs.
pub open spec fn is_at_its_place(
    profile: Seq<char>,
    dropzone: Option<Seq<u8>>,
    host: Host,
    source: Seq<u8>,
    target: Seq<u8>,
) -> bool {
    let staging = staging_dir(opt_text(host.xdg_runtime_dir));
    let overlay = joined(staging, utf8(".swine_overlay"@));
    let there = all_bytes(host.existing@).contains(source);
    ||| source == utf8("/sys"@) && target == joined(staging, utf8("sys"@))
    ||| there && (is_device(source) || is_system(source)) && target == joined(
        staging,
        source.skip(1),
    )
    ||| source == base_prefix(opt_text(host.home)) && target == joined(overlay, utf8("lower"@))
    ||| source == data_dir(opt_text(host.home), profile) && target == joined(
        overlay,
        utf8("profile"@),
    )
    ||| there && target == joined(staging, utf8("run/user/1000/pulse/native"@)) && (opt_text(
        host.xdg_runtime_dir,
    ) matches Some(dir) && source == joined(utf8(dir), utf8("pulse/native"@)))
    ||| dropzone == Some(source) && target == joined(staging, utf8("workspace"@))
}

spec fn shows_at_its_place(
    profile: Seq<char>,
    dropzone: Option<Seq<u8>>,
    host: Host,
    step: StepView,
) -> bool {
    match step.op {
        OpView::Mount { source: Some(source), target, flags, .. } => flags.contains(
            MountFlag::Bind,
        ) ==> is_at_its_place(profile, dropzone, host, source, target),
        _ => true,
    }
}

spec fn all_at_their_places(
    profile: Seq<char>,
    dropzone: Option<Seq<u8>>,
    host: Host,
    steps: Seq<StepView>,
) -> bool {
    forall|k: int|
        0 <= k < steps.len() ==> shows_at_its_place(profile, dropzone, host, #[trigger] steps[k])
}

proof fn lemma_places_concat(
    profile: Seq<char>,
    dropzone: Option<Seq<u8>>,
    host: Host,
    a: Seq<StepView>,
    b: Seq<StepView>,
)
    requires
        all_at_their_places(profile, dropzone, host, a),
        all_at_their_places(profile, dropzone, host, b),
    ensures
        all_at_their_places(profile, dropzone, host, a + b),
{
    assert forall|k: int| 0 <= k < (a + b).len() implies shows_at_its_place(
        profile,
        dropzone,
        host,
        #[trigger] (a + b)[k],
    ) by {
        if k < a.len() {
            assert((a + b)[k] == a[k]);
        } else {
            assert((a + b)[k] == b[k - a.len()]);
        }
    }
}

proof fn lemma_steps_for_places(
    profile: Seq<char>,
    dropzone: Option<Seq<u8>>,
    host: Host,
    staging: Seq<u8>,
    paths: Seq<(&'static str, &'static str)>,
    steps: spec_fn((&'static str, &'static str)) -> Seq<StepView>,
)
    requires
        forall|k: int|
            0 <= k < paths.len() && all_bytes(host.existing@).contains(utf8(paths[k].0@))
                ==> all_at_their_places(profile, dropzone, host, #[trigger] steps(paths[k])),
    ensures
        all_at_their_places(
            profile,
            dropzone,
            host,
            steps_for(staging, paths, all_bytes(host.existing@), steps),
        ),
    decreases paths.len(),
{
    if paths.len() > 0 {
        let existing = all_bytes(host.existing@);
        let rest = paths.drop_last();
        assert forall|k: int|
            0 <= k < rest.len() && existing.contains(
                utf8(rest[k].0@),
            ) implies all_at_their_places(
            profile,
            dropzone,
            host,
            #[trigger] steps(rest[k]),
        ) by {
            assert(rest[k] == paths[k]);
        }
        lemma_steps_for_places(profile, dropzone, host, staging, rest, steps);
        if existing.contains(utf8(paths.last().0@)) {
            assert(all_at_their_places(
                profile,
                dropzone,
                host,
                steps(paths[paths.len() - 1]),
            ));
            lemma_places_concat(
                profile,
                dropzone,
                host,
                steps_for(staging, rest, existing, steps),
                steps(paths.last()),
            );
        }
    }
}

proof fn lemma_rooted(path: &'static str, rel: &'static str)
    requires
        path@ == "/"@ + rel@,
        vstd::utf8::is_ascii_chars(path@),
    ensures
        utf8(path@).skip(1) == utf8(rel@),
{
    reveal_strlit("/");
    assert(forall|k: int| 0 <= k < rel@.len() ==> rel@[k] == path@[k + 1]);
    assert(vstd::utf8::is_ascii_chars(rel@));
    lemma_ascii_utf8(path@);
    lemma_ascii_utf8(rel@);
    assert(utf8(path@).skip(1) =~= utf8(rel@));
}

proof fn lemma_system_rooted()
    ensures
        utf8("/usr"@).skip(1) == utf8("usr"@),
        utf8("/lib"@).skip(1) == utf8("lib"@),
        utf8("/lib64"@).skip(1) == utf8("lib64"@),
        utf8("/usr/lib32"@).skip(1) == utf8("usr/lib32"@),
        utf8("/bin"@).skip(1) == utf8("bin"@),
        utf8("/sbin"@).skip(1) == utf8("sbin"@),
        utf8("/dev/dri"@).skip(1) == utf8("dev/dri"@),
{
    reveal_strlit("/");
    reveal_strlit("/usr");
    reveal_strlit("usr");
    reveal_strlit("/lib");
    reveal_strlit("lib");
    reveal_strlit("/lib64");
    reveal_strlit("lib64");
    reveal_strlit("/usr/lib32");
    reveal_strlit("usr/lib32");
    reveal_strlit("/bin");
    reveal_strlit("bin");
    reveal_strlit("/sbin");
    reveal_strlit("sbin");
    reveal_strlit("/dev/dri");
    reveal_strlit("dev/dri");
    assert("/usr"@ =~= "/"@ + "usr"@);
    lemma_rooted("/usr", "usr");
    assert("/lib"@ =~= "/"@ + "lib"@);
    lemma_rooted("/lib", "lib");
    assert("/lib64"@ =~= "/"@ + "lib64"@);
    lemma_rooted("/lib64", "lib64");
    assert("/usr/lib32"@ =~= "/"@ + "usr/lib32"@);
    lemma_rooted("/usr/lib32", "usr/lib32");
    assert("/bin"@ =~= "/"@ + "bin"@);
    lemma_rooted("/bin", "bin");
    assert("/sbin"@ =~= "/"@ + "sbin"@);
    lemma_rooted("/sbin", "sbin");
    assert("/dev/dri"@ =~= "/"@ + "dev/dri"@);
    lemma_rooted("/dev/dri", "dev/dri");
}

proof fn lemma_devices_rooted()
    ensures
        utf8("/dev/null"@).skip(1) == utf8("dev/null"@),
        utf8("/dev/zero"@).skip(1) == utf8("dev/zero"@),
        utf8("/dev/urandom"@).skip(1) == utf8("dev/urandom"@),
        utf8("/dev/random"@).skip(1) == utf8("dev/random"@),
        utf8("/dev/fuse"@).skip(1) == utf8("dev/fuse"@),
{
    reveal_strlit("/");
    reveal_strlit("/dev/null");
    reveal_strlit("dev/null");
    reveal_strlit("/dev/zero");
    reveal_strlit("dev/zero");
    reveal_strlit("/dev/urandom");
    reveal_strlit("dev/urandom");
    reveal_strlit("/dev/random");
    reveal_strlit("dev/random");
    reveal_strlit("/dev/fuse");
    reveal_strlit("dev/fuse");
    assert("/dev/null"@ =~= "/"@ + "dev/null"@);
    lemma_rooted("/dev/null", "dev/null");
    assert("/dev/zero"@ =~= "/"@ + "dev/zero"@);
    lemma_rooted("/dev/zero", "dev/zero");
    assert("/dev/urandom"@ =~= "/"@ + "dev/urandom"@);
    lemma_rooted("/dev/urandom", "dev/urandom");
    assert("/dev/random"@ =~= "/"@ + "dev/random"@);
    lemma_rooted("/dev/random", "dev/random");
    assert("/dev/fuse"@ =~= "/"@ + "dev/fuse"@);
    lemma_rooted("/dev/fuse", "dev/fuse");
}

proof fn lemma_files_rooted()
    ensures
        utf8("/etc/resolv.conf"@).skip(1) == utf8("etc/resolv.conf"@),
        utf8("/etc/nsswitch.conf"@).skip(1) == utf8("etc/nsswitch.conf"@),
        utf8("/etc/ssl/certs"@).skip(1) == utf8("etc/ssl/certs"@),
        utf8("/etc/ca-certificates"@).skip(1) == utf8("etc/ca-certificates"@),
        utf8("/etc/fonts"@).skip(1) == utf8("etc/fonts"@),
{
    reveal_strlit("/");
    reveal_strlit("/etc/resolv.conf");
    reveal_strlit("etc/resolv.conf");
    reveal_strlit("/etc/nsswitch.conf");
    reveal_strlit("etc/nsswitch.conf");
    reveal_strlit("/etc/ssl/certs");
    reveal_strlit("etc/ssl/certs");
    reveal_strlit("/etc/ca-certificates");
    reveal_strlit("etc/ca-certificates");
    reveal_strlit("/etc/fonts");
    reveal_strlit("etc/fonts");
    assert("/etc/resolv.conf"@ =~= "/"@ + "etc/resolv.conf"@);
    lemma_rooted("/etc/resolv.conf", "etc/resolv.conf");
    assert("/etc/nsswitch.conf"@ =~= "/"@ + "etc/nsswitch.conf"@);
    lemma_rooted("/etc/nsswitch.conf", "etc/nsswitch.conf");
    assert("/etc/ssl/certs"@ =~= "/"@ + "etc/ssl/certs"@);
    lemma_rooted("/etc/ssl/certs", "etc/ssl/certs");
    assert("/etc/ca-certificates"@ =~= "/"@ + "etc/ca-certificates"@);
    lemma_rooted("/etc/ca-certificates", "etc/ca-certificates");
    assert("/etc/fonts"@ =~= "/"@ + "etc/fonts"@);
    lemma_rooted("/etc/fonts", "etc/fonts");
}

proof fn lemma_system_places(profile: Seq<char>, dropzone: Option<Seq<u8>>, host: Host)
    ensures
        all_at_their_places(
            profile,
            dropzone,
            host,
            system_steps(
                staging_dir(opt_text(host.xdg_runtime_dir)),
                all_bytes(host.existing@),
            ),
        ),
        all_at_their_places(
            profile,
            dropzone,
            host,
            device_steps(
                staging_dir(opt_text(host.xdg_runtime_dir)),
                all_bytes(host.existing@),
            ),
        ),
{
    let staging = staging_dir(opt_text(host.xdg_runtime_dir));
    let existing = all_bytes(host.existing@);
    lemma_system_rooted();
    lemma_devices_rooted();
    let f = |d: (&'static str, &'static str)| system_dir_steps(staging, d);
    let dirs = system_dirs();
    lemma_steps_for_places(profile, dropzone, host, staging, dirs, f);
    let shown = steps_for(staging, dirs, existing, f);
    if existing.contains(utf8("/dev/dri"@)) {
        let dri = seq![must(bound(utf8("/dev/dri"@), inside(staging, "dev/dri")))];
        assert(all_at_their_places(profile, dropzone, host, dri));
        lemma_places_concat(profile, dropzone, host, shown, dri);
        assert(shown + dri =~= shown.push(dri[0]));
    }
    let g = |d: (&'static str, &'static str)| device_node_steps(staging, d);
    lemma_steps_for_places(profile, dropzone, host, staging, device_nodes(), g);
}

proof fn lemma_net_places(
    profile: Seq<char>,
    dropzone: Option<Seq<u8>>,
    host: Host,
    files: Seq<(&'static str, &'static str, &'static str)>,
)
    requires
        forall|k: int|
            0 <= k < files.len() ==> is_system(utf8((#[trigger] files[k]).0@)) && utf8(
                files[k].0@,
            ).skip(1) == utf8(files[k].1@),
    ensures
        all_at_their_places(
            profile,
            dropzone,
            host,
            net_steps(
                staging_dir(opt_text(host.xdg_runtime_dir)),
                files,
                all_bytes(host.existing@),
                all_bytes(host.directories@),
            ),
        ),
    decreases files.len(),
{
    if files.len() > 0 {
        let staging = staging_dir(opt_text(host.xdg_runtime_dir));
        let existing = all_bytes(host.existing@);
        let directories = all_bytes(host.directories@);
        let rest = files.drop_last();
        assert forall|k: int| 0 <= k < rest.len() implies is_system(
            utf8((#[trigger] rest[k]).0@),
        ) && utf8(rest[k].0@).skip(1) == utf8(rest[k].1@) by {
            assert(rest[k] == files[k]);
        }
        lemma_net_places(profile, dropzone, host, rest);
        let file = files[files.len() - 1];
        assert(file == files.last());
        if existing.contains(utf8(file.0@)) {
            let s = net_file_steps(staging, file, directories.contains(utf8(file.0@)));
            assert(all_at_their_places(profile, dropzone, host, s));
            lemma_places_concat(
                profile,
                dropzone,
                host,
                net_steps(staging, rest, existing, directories),
                s,
            );
        }
    }
}

/// Of the host the plan shows what is there, each thing where it is on the host,
/// and beside that the prefix, the data of the profile, the sound server and the
/// dropzone at places of their own; nothing is shown anywhere else.
pub proof fn law_everything_is_at_its_place(
    profile: Seq<char>,
    dropzone: Option<Seq<u8>>,
    host: Host,
    k: int,
)
    requires
        0 <= k < isolation_steps(profile, dropzone, host).len(),
        isolation_steps(profile, dropzone, host)[k].op matches OpView::Mount { source, flags, .. }
            && source is Some && flags.contains(MountFlag::Bind),
    ensures
        is_at_its_place(
            profile,
            dropzone,
            host,
            isolation_steps(profile, dropzone, host)[k].op->source->0,
            isolation_steps(profile, dropzone, host)[k].op->target,
        ),
{
    let xdg = opt_text(host.xdg_runtime_dir);
    let existing = all_bytes(host.existing@);
    let staging = staging_dir(xdg);
    let first = opening(staging, host.staging);
    let a = made_dirs(staging, root_dirs());
    let b = system_steps(staging, existing);
    let c = pseudo_steps(staging);
    let d = device_steps(staging, existing);
    let e = overlay_steps(profile, opt_text(host.home), staging);
    let f = audio_steps(staging, xdg, existing);
    let g = dropzone_steps(staging, dropzone);
    let h = font_steps(staging, existing);
    let i = net_steps(staging, net_files(), existing, all_bytes(host.directories@));
    let j = pivot_steps(staging);
    lemma_files_rooted();
    lemma_system_places(profile, dropzone, host);
    lemma_net_places(profile, dropzone, host, net_files());
    assert(all_at_their_places(profile, dropzone, host, first));
    assert(all_at_their_places(profile, dropzone, host, a));
    assert(all_at_their_places(profile, dropzone, host, c));
    assert(all_at_their_places(profile, dropzone, host, e));
    assert(all_at_their_places(profile, dropzone, host, f));
    assert(all_at_their_places(profile, dropzone, host, g));
    assert(all_at_their_places(profile, dropzone, host, h));
    assert(all_at_their_places(profile, dropzone, host, j));
    lemma_places_concat(profile, dropzone, host, a, b);
    lemma_places_concat(profile, dropzone, host, a + b, c);
    lemma_places_concat(profile, dropzone, host, a + b + c, d);
    lemma_places_concat(profile, dropzone, host, a + b + c + d, e);
    lemma_places_concat(profile, dropzone, host, a + b + c + d + e, f);
    lemma_places_concat(profile, dropzone, host, a + b + c + d + e + f, g);
    lemma_places_concat(profile, dropzone, host, a + b + c + d + e + f + g, h);
    lemma_places_concat(profile, dropzone, host, a + b + c + d + e + f + g + h, i);
    lemma_places_concat(profile, dropzone, host, a + b + c + d + e + f + g + h + i, j);
    lemma_places_concat(profile, dropzone, host, first, behind_opening(profile, dropzone, host));
    lemma_plan_in_two(profile, dropzone, host);
}

/// The Wine prefix is mounted by the kernel where it can be; where the kernel
/// refuses, by `fuse-overlayfs`, which has to start, and to stay or to leave
/// without failing.
pub proof fn law_how_the_prefix_is_mounted(pid: u32, success: bool)
    ensures
        overlay_after(seq![OverlayEvent::KernelMounted]) == Overlay::Mounted(
            FsSetupResult { fuse_pid: None },
        ),
        overlay_after(
            seq![
                OverlayEvent::KernelRefused,
                OverlayEvent::FuseStarted { pid },
                OverlayEvent::FuseStays,
            ],
        ) == Overlay::Mounted(FsSetupResult { fuse_pid: Some(pid) }),
        overlay_after(
            seq![
                OverlayEvent::KernelRefused,
                OverlayEvent::FuseStarted { pid },
                OverlayEvent::FuseLeft { success },
            ],
        ) == if success {
            Overlay::Mounted(FsSetupResult { fuse_pid: Some(pid) })
        } else {
            Overlay::Failed
        },
        overlay_after(seq![OverlayEvent::KernelRefused, OverlayEvent::FuseNotStarted])
            == Overlay::Failed,
{
    reveal_with_fuel(overlay_after, 4);
    let r = seq![OverlayEvent::KernelRefused];
    let s = r.push(OverlayEvent::FuseStarted { pid });
    let none: Seq<OverlayEvent> = seq![];
    assert(r.drop_last() =~= none);
    assert(s.drop_last() =~= r);
    assert(overlay_after(r) == Overlay::StartFuse);
    assert(overlay_after(s) == Overlay::AwaitFuse { pid });
    let m = seq![OverlayEvent::KernelMounted];
    assert(m.drop_last() =~= none);
    let t = s.push(OverlayEvent::FuseStays);
    assert(t.drop_last() =~= s);
    assert(t =~= seq![
        OverlayEvent::KernelRefused,
        OverlayEvent::FuseStarted { pid },
        OverlayEvent::FuseStays,
    ]);
    let t = s.push(OverlayEvent::FuseLeft { success });
    assert(t.drop_last() =~= s);
    assert(t =~= seq![
        OverlayEvent::KernelRefused,
        OverlayEvent::FuseStarted { pid },
        OverlayEvent::FuseLeft { success },
    ]);
    let t = r.push(OverlayEvent::FuseNotStarted);
    assert(t.drop_last() =~= r);
    assert(t =~= seq![OverlayEvent::KernelRefused, OverlayEvent::FuseNotStarted]);
}

/// What is mounted or has failed stays so, and so does a file system that is ready
/// or has failed, whatever happens.
pub proof fn law_ends_of_the_file_system_are_final(
    guides: Seq<Guide>,
    result: FsSetupResult,
    event: FsEvent,
    e: OverlayEvent,
)
    ensures
        fs_next(guides, FsState::Ready(result), event) == FsState::Ready(result),
        fs_next(guides, FsState::Failed, event) is Failed,
        overlay_next(Overlay::Mounted(result), e) == Overlay::Mounted(result),
        overlay_next(Overlay::Failed, e) == Overlay::Failed,
{
}

/// How the plan is carried out: a step on which it depends ends it where it fails,
/// one that it can do without never does, and behind the last step comes the Wine
/// prefix, which decides whether the file system is ready.
pub proof fn law_how_the_plan_is_carried_out(
    guides: Seq<Guide>,
    k: usize,
    succeeded: bool,
    overlay: Overlay,
    e: OverlayEvent,
)
    requires
        k < guides.len() <= usize::MAX,
    ensures
        guides[k as int].on_failure is Abort ==> fs_next(
            guides,
            FsState::At(k),
            FsEvent::Step(false),
        ) is Failed,
        guides[k as int].on_success is Next && succeeded || guides[k as int].on_failure is Next
            && !succeeded ==> fs_next(guides, FsState::At(k), FsEvent::Step(succeeded)) == if k + 1
            < guides.len() {
            FsState::At((k + 1) as usize)
        } else {
            FsState::Prefix(Overlay::Native)
        },
        match fs_next(guides, FsState::Prefix(overlay), FsEvent::Prefix(e)) {
            FsState::Ready(result) => overlay_next(overlay, e) == Overlay::Mounted(result),
            FsState::Failed => overlay_next(overlay, e) is Failed,
            FsState::Prefix(other) => overlay_next(overlay, e) == other,
            FsState::At(_) => false,
        },
{
}

/// Which directories the new root has from the start; without each of them the
/// plan ends.
pub proof fn law_directories_of_the_new_root(
    profile: Seq<char>,
    dropzone: Option<Seq<u8>>,
    host: Host,
)
    ensures
        ({
            let staging = staging_dir(opt_text(host.xdg_runtime_dir));
            in_turn(
                isolation_steps(profile, dropzone, host),
                seq![
                    must(OpView::CreateDirs { path: joined(staging, utf8("usr"@)) }),
                    must(OpView::CreateDirs { path: joined(staging, utf8("bin"@)) }),
                    must(OpView::CreateDirs { path: joined(staging, utf8("sbin"@)) }),
                    must(OpView::CreateDirs { path: joined(staging, utf8("lib"@)) }),
                    must(OpView::CreateDirs { path: joined(staging, utf8("lib64"@)) }),
                    must(OpView::CreateDirs { path: joined(staging, utf8("usr/lib32"@)) }),
                    must(OpView::CreateDirs { path: joined(staging, utf8("dev"@)) }),
                    must(OpView::CreateDirs { path: joined(staging, utf8("dev/dri"@)) }),
                    must(OpView::CreateDirs { path: joined(staging, utf8("tmp"@)) }),
                    must(OpView::CreateDirs { path: joined(staging, utf8("proc"@)) }),
                    must(OpView::CreateDirs { path: joined(staging, utf8("sys"@)) }),
                    must(OpView::CreateDirs { path: joined(staging, utf8("home/user/.wine"@)) }),
                ],
            )
        }),
{
    let staging = staging_dir(opt_text(host.xdg_runtime_dir));
    lemma_directories_of_the_root(staging);
    lemma_directories_in_turn(profile, dropzone, host);
}

proof fn lemma_directories_of_the_root(staging: Seq<u8>)
    ensures
        made_dirs(staging, root_dirs()) == seq![
            must(OpView::CreateDirs { path: joined(staging, utf8("usr"@)) }),
            must(OpView::CreateDirs { path: joined(staging, utf8("bin"@)) }),
            must(OpView::CreateDirs { path: joined(staging, utf8("sbin"@)) }),
            must(OpView::CreateDirs { path: joined(staging, utf8("lib"@)) }),
            must(OpView::CreateDirs { path: joined(staging, utf8("lib64"@)) }),
            must(OpView::CreateDirs { path: joined(staging, utf8("usr/lib32"@)) }),
            must(OpView::CreateDirs { path: joined(staging, utf8("dev"@)) }),
            must(OpView::CreateDirs { path: joined(staging, utf8("dev/dri"@)) }),
            must(OpView::CreateDirs { path: joined(staging, utf8("tmp"@)) }),
            must(OpView::CreateDirs { path: joined(staging, utf8("proc"@)) }),
            must(OpView::CreateDirs { path: joined(staging, utf8("sys"@)) }),
            must(OpView::CreateDirs { path: joined(staging, utf8("home/user/.wine"@)) }),
        ],
{
    let list = seq![
        must(OpView::CreateDirs { path: joined(staging, utf8("usr"@)) }),
        must(OpView::CreateDirs { path: joined(staging, utf8("bin"@)) }),
        must(OpView::CreateDirs { path: joined(staging, utf8("sbin"@)) }),
        must(OpView::CreateDirs { path: joined(staging, utf8("lib"@)) }),
        must(OpView::CreateDirs { path: joined(staging, utf8("lib64"@)) }),
        must(OpView::CreateDirs { path: joined(staging, utf8("usr/lib32"@)) }),
        must(OpView::CreateDirs { path: joined(staging, utf8("dev"@)) }),
        must(OpView::CreateDirs { path: joined(staging, utf8("dev/dri"@)) }),
        must(OpView::CreateDirs { path: joined(staging, utf8("tmp"@)) }),
        must(OpView::CreateDirs { path: joined(staging, utf8("proc"@)) }),
        must(OpView::CreateDirs { path: joined(staging, utf8("sys"@)) }),
        must(OpView::CreateDirs { path: joined(staging, utf8("home/user/.wine"@)) }),
    ];
    let dirs = made_dirs(staging, root_dirs());
    assert forall|k: int| 0 <= k < 12 implies dirs[k] == list[k] by {
        assert(root_dirs()[0] == "usr");
        assert(root_dirs()[1] == "bin");
        assert(root_dirs()[2] == "sbin");
        assert(root_dirs()[3] == "lib");
        assert(root_dirs()[4] == "lib64");
        assert(root_dirs()[5] == "usr/lib32");
        assert(root_dirs()[6] == "dev");
        assert(root_dirs()[7] == "dev/dri");
        assert(root_dirs()[8] == "tmp");
        assert(root_dirs()[9] == "proc");
        assert(root_dirs()[10] == "sys");
        assert(root_dirs()[11] == "home/user/.wine");
    }
    assert(dirs =~= list);
}

proof fn lemma_directories_in_turn(
    profile: Seq<char>,
    dropzone: Option<Seq<u8>>,
    host: Host,
)
    ensures
        in_turn(
            isolation_steps(profile, dropzone, host),
            made_dirs(staging_dir(opt_text(host.xdg_runtime_dir)), root_dirs()),
        ),
{
    let staging = staging_dir(opt_text(host.xdg_runtime_dir));
    let dirs = made_dirs(staging, root_dirs());
    let front = (if host.staging is Missing {
        seq![must(OpView::CreateDirs { path: staging })]
    } else {
        seq![]
    }) + seq![
        must(OpView::SetMode { path: staging, mode: 0o700 }),
        must(fresh("tmpfs", staging, seq![], Some("mode=755"))),
    ];
    assert(staging_steps(staging, host.staging) == front + dirs);
    lemma_whole_in_turn(dirs);
    lemma_in_turn_concat(front, dirs, dirs);
    lemma_part_of_plan(profile, dropzone, host, dirs);
}

/// A number for each of the given paths that is there.
pub open spec fn count_there(existing: Seq<Seq<u8>>, path: Seq<u8>, steps: int) -> int {
    if existing.contains(path) {
        steps
    } else {
        0
    }
}

proof fn lemma_system_steps_count(staging: Seq<u8>, existing: Seq<Seq<u8>>)
    ensures
        system_steps(staging, existing).len() == count_there(
            existing,
            utf8("/usr"@),
            2,
        ) + count_there(
            existing,
            utf8("/lib"@),
            2,
        ) + count_there(
            existing,
            utf8("/lib64"@),
            2,
        ) + count_there(
            existing,
            utf8("/usr/lib32"@),
            2,
        ) + count_there(
            existing,
            utf8("/bin"@),
            2,
        ) + count_there(
            existing,
            utf8("/sbin"@),
            2,
        ) + count_there(
            existing,
            utf8("/dev/dri"@),
            1,
        ),
{
    reveal_with_fuel(steps_for, 7);
    let f = |d: (&'static str, &'static str)| system_dir_steps(staging, d);
    let d6 = system_dirs();
    let d5 = d6.drop_last();
    let d4 = d5.drop_last();
    let d3 = d4.drop_last();
    let d2 = d3.drop_last();
    let d1 = d2.drop_last();
    assert(d1.drop_last().len() == 0);
    assert(d6.last() == ("/sbin", "sbin") && d5.last() == ("/bin", "bin") && d4.last() == (
        "/usr/lib32",
        "usr/lib32",
    ) && d3.last() == ("/lib64", "lib64") && d2.last() == ("/lib", "lib") && d1.last() == (
        "/usr",
        "usr",
    ));
    lemma_steps_for_step(staging, d6, existing, f, 2);
    lemma_steps_for_step(staging, d5, existing, f, 2);
    lemma_steps_for_step(staging, d4, existing, f, 2);
    lemma_steps_for_step(staging, d3, existing, f, 2);
    lemma_steps_for_step(staging, d2, existing, f, 2);
    lemma_steps_for_step(staging, d1, existing, f, 2);
    assert(steps_for(staging, d1.drop_last(), existing, f).len() == 0);
}

proof fn lemma_device_steps_count(staging: Seq<u8>, existing: Seq<Seq<u8>>)
    ensures
        device_steps(staging, existing).len() == count_there(
            existing,
            utf8("/dev/null"@),
            2,
        ) + count_there(
            existing,
            utf8("/dev/zero"@),
            2,
        ) + count_there(
            existing,
            utf8("/dev/urandom"@),
            2,
        ) + count_there(
            existing,
            utf8("/dev/random"@),
            2,
        ) + count_there(
            existing,
            utf8("/dev/fuse"@),
            2,
        ),
{
    let f = |d: (&'static str, &'static str)| device_node_steps(staging, d);
    let d5 = device_nodes();
    let d4 = d5.drop_last();
    let d3 = d4.drop_last();
    let d2 = d3.drop_last();
    let d1 = d2.drop_last();
    assert(d5.last() == ("/dev/fuse", "dev/fuse") && d4.last() == ("/dev/random", "dev/random")
        && d3.last() == ("/dev/urandom", "dev/urandom") && d2.last() == ("/dev/zero", "dev/zero")
        && d1.last() == ("/dev/null", "dev/null"));
    lemma_steps_for_step(staging, d5, existing, f, 2);
    lemma_steps_for_step(staging, d4, existing, f, 2);
    lemma_steps_for_step(staging, d3, existing, f, 2);
    lemma_steps_for_step(staging, d2, existing, f, 2);
    lemma_steps_for_step(staging, d1, existing, f, 2);
    assert(steps_for(staging, d1.drop_last(), existing, f).len() == 0);
}

proof fn lemma_steps_for_step(
    staging: Seq<u8>,
    paths: Seq<(&'static str, &'static str)>,
    existing: Seq<Seq<u8>>,
    steps: spec_fn((&'static str, &'static str)) -> Seq<StepView>,
    n: nat,
)
    requires
        paths.len() > 0,
        steps(paths.last()).len() == n,
    ensures
        steps_for(staging, paths, existing, steps).len() == steps_for(
            staging,
            paths.drop_last(),
            existing,
            steps,
        ).len() + count_there(existing, utf8(paths.last().0@), n as int),
{
}

proof fn lemma_net_steps_count(
    staging: Seq<u8>,
    existing: Seq<Seq<u8>>,
    directories: Seq<Seq<u8>>,
)
    ensures
        net_steps(staging, net_files(), existing, directories).len() == count_there(
            existing,
            utf8("/etc/resolv.conf"@),
            4,
        ) + count_there(
            existing,
            utf8("/etc/nsswitch.conf"@),
            4,
        ) + count_there(
            existing,
            utf8("/etc/ssl/certs"@),
            4,
        ) + count_there(
            existing,
            utf8("/etc/ca-certificates"@),
            4,
        ),
{
    let d4 = net_files();
    let d3 = d4.drop_last();
    let d2 = d3.drop_last();
    let d1 = d2.drop_last();
    assert(d4.last().0 == "/etc/ca-certificates" && d3.last().0 == "/etc/ssl/certs" && d2.last().0
        == "/etc/nsswitch.conf" && d1.last().0 == "/etc/resolv.conf");
    lemma_net_step(staging, d4, existing, directories);
    lemma_net_step(staging, d3, existing, directories);
    lemma_net_step(staging, d2, existing, directories);
    lemma_net_step(staging, d1, existing, directories);
    assert(net_steps(staging, d1.drop_last(), existing, directories).len() == 0);
}

proof fn lemma_net_step(
    staging: Seq<u8>,
    files: Seq<(&'static str, &'static str, &'static str)>,
    existing: Seq<Seq<u8>>,
    directories: Seq<Seq<u8>>,
)
    requires
        files.len() > 0,
    ensures
        net_steps(staging, files, existing, directories).len() == net_steps(
            staging,
            files.drop_last(),
            existing,
            directories,
        ).len() + count_there(existing, utf8(files.last().0@), 4),
{
}

/// The plan has no more steps than these: for each directory of the system and
/// each device that is there two, for each file of the network four, for the
/// graphics cards one, for the sound server, the fonts and the dropzone three
/// each, and beside them those that every plan has.
pub proof fn law_plan_has_no_other_steps(profile: Seq<char>, dropzone: Option<Seq<u8>>, host: Host)
    ensures
        ({
            let existing = all_bytes(host.existing@);
            let sound: int = match opt_text(host.xdg_runtime_dir) {
                Some(dir) => count_there(existing, joined(utf8(dir), utf8("pulse/native"@)), 3),
                None => 0,
            };
            let system = count_there(
                existing,
                utf8("/usr"@),
                2,
            ) + count_there(
                existing,
                utf8("/lib"@),
                2,
            ) + count_there(
                existing,
                utf8("/lib64"@),
                2,
            ) + count_there(
                existing,
                utf8("/usr/lib32"@),
                2,
            ) + count_there(
                existing,
                utf8("/bin"@),
                2,
            ) + count_there(
                existing,
                utf8("/sbin"@),
                2,
            ) + count_there(
                existing,
                utf8("/dev/dri"@),
                1,
            );
            let devices = count_there(
                existing,
                utf8("/dev/null"@),
                2,
            ) + count_there(
                existing,
                utf8("/dev/zero"@),
                2,
            ) + count_there(
                existing,
                utf8("/dev/urandom"@),
                2,
            ) + count_there(
                existing,
                utf8("/dev/random"@),
                2,
            ) + count_there(
                existing,
                utf8("/dev/fuse"@),
                2,
            );
            let network = count_there(
                existing,
                utf8("/etc/resolv.conf"@),
                4,
            ) + count_there(
                existing,
                utf8("/etc/nsswitch.conf"@),
                4,
            ) + count_there(
                existing,
                utf8("/etc/ssl/certs"@),
                4,
            ) + count_there(
                existing,
                utf8("/etc/ca-certificates"@),
                4,
            );
            isolation_steps(profile, dropzone, host).len() == 1 + (if host.staging is Missing {
                1int
            } else {
                0
            }) + 2 + 12 + system + 7 + devices + 8 + sound + (if dropzone is Some {
                3int
            } else {
                0
            }) + count_there(existing, utf8("/etc/fonts"@), 3) + network + 6
        }),
{
    let existing = all_bytes(host.existing@);
    let staging = staging_dir(opt_text(host.xdg_runtime_dir));
    lemma_system_steps_count(staging, existing);
    lemma_device_steps_count(staging, existing);
    lemma_net_steps_count(staging, existing, all_bytes(host.directories@));
}

/// A step whose turn it is not changes nothing of the prefix, and one that is out
/// of order ends the file system.
pub proof fn law_events_come_in_order(
    guides: Seq<Guide>,
    k: usize,
    overlay: Overlay,
    e: OverlayEvent,
    succeeded: bool,
    pid: u32,
)
    ensures
        fs_next(guides, FsState::At(k), FsEvent::Prefix(e)) is Failed,
        fs_next(guides, FsState::Prefix(overlay), FsEvent::Step(succeeded)) is Failed,
        !(e is KernelMounted) && !(e is KernelRefused) ==> overlay_next(Overlay::Native, e)
            == Overlay::Native,
        !(e is FuseStarted) && !(e is FuseNotStarted) ==> overlay_next(Overlay::StartFuse, e)
            == Overlay::StartFuse,
        !(e is FuseStays) && !(e is FuseLeft) ==> overlay_next(Overlay::AwaitFuse { pid }, e)
            == (Overlay::AwaitFuse { pid }),
{
}

/// Where a plan goes behind a step that spares others, and where it begins.
pub proof fn law_where_a_plan_goes(guides: Seq<Guide>, k: usize, n: usize, succeeded: bool)
    requires
        k < guides.len() <= usize::MAX,
        guides[k as int].on_success == Flow::Skip(n) && succeeded || guides[k as int].on_failure
            == Flow::Skip(n) && !succeeded,
    ensures
        fs_next(guides, FsState::At(k), FsEvent::Step(succeeded)) == if k + n + 1 < guides.len() {
            FsState::At((k + n + 1) as usize)
        } else {
            FsState::Prefix(Overlay::Native)
        },
        fs_start(guides) == FsState::At(0),
{
}

}
