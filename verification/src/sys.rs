//! Flags of the kernel, as the `nix` crate knows them.

use vstd::prelude::*;

verus! {

/// A kind of namespace that a process can have of its own.
#[derive(Clone, Copy, PartialEq, Eq, Structural, Debug)]
pub enum Namespace {
    User,
    Mount,
    Pid,
    Ipc,
    Uts,
    Net,
}

/// The flag with which `clone` makes a namespace.
pub open spec fn namespace_bit(n: Namespace) -> i32 {
    match n {
        Namespace::User => 0x1000_0000,
        Namespace::Mount => 0x0002_0000,
        Namespace::Pid => 0x2000_0000,
        Namespace::Ipc => 0x0800_0000,
        Namespace::Uts => 0x0400_0000,
        Namespace::Net => 0x4000_0000,
    }
}

/// `nix::sched::CloneFlags::bits` of the flag for a namespace: it is the number
/// that Linux gives that flag.
#[verifier::external_body]
pub(crate) fn clone_flag_bits(n: Namespace) -> (r: i32)
    ensures
        r == namespace_bit(n),
{
    match n {
        Namespace::User => nix::sched::CloneFlags::CLONE_NEWUSER.bits(),
        Namespace::Mount => nix::sched::CloneFlags::CLONE_NEWNS.bits(),
        Namespace::Pid => nix::sched::CloneFlags::CLONE_NEWPID.bits(),
        Namespace::Ipc => nix::sched::CloneFlags::CLONE_NEWIPC.bits(),
        Namespace::Uts => nix::sched::CloneFlags::CLONE_NEWUTS.bits(),
        Namespace::Net => nix::sched::CloneFlags::CLONE_NEWNET.bits(),
    }
}

/// A flag of a mount.
#[derive(Clone, Copy, PartialEq, Eq, Structural, Debug)]
pub enum MountFlag {
    ReadOnly,
    NoSuid,
    NoDev,
    NoExec,
    Remount,
    Bind,
    Recursive,
    Private,
}

pub const MS_RDONLY: u64 = 0x1;

pub const MS_NOSUID: u64 = 0x2;

pub const MS_NODEV: u64 = 0x4;

pub const MS_NOEXEC: u64 = 0x8;

pub const MS_REMOUNT: u64 = 0x20;

pub const MS_BIND: u64 = 0x1000;

pub const MS_REC: u64 = 0x4000;

pub const MS_PRIVATE: u64 = 0x4_0000;

/// The number of a mount flag.
pub open spec fn mount_bit(f: MountFlag) -> u64 {
    match f {
        MountFlag::ReadOnly => MS_RDONLY,
        MountFlag::NoSuid => MS_NOSUID,
        MountFlag::NoDev => MS_NODEV,
        MountFlag::NoExec => MS_NOEXEC,
        MountFlag::Remount => MS_REMOUNT,
        MountFlag::Bind => MS_BIND,
        MountFlag::Recursive => MS_REC,
        MountFlag::Private => MS_PRIVATE,
    }
}

/// `nix::mount::MsFlags::bits` of a mount flag: it is the number that Linux
/// gives that flag.
#[verifier::external_body]
pub(crate) fn mount_flag_bits(f: MountFlag) -> (r: u64)
    ensures
        r == mount_bit(f),
{
    match f {
        MountFlag::ReadOnly => nix::mount::MsFlags::MS_RDONLY.bits() as u64,
        MountFlag::NoSuid => nix::mount::MsFlags::MS_NOSUID.bits() as u64,
        MountFlag::NoDev => nix::mount::MsFlags::MS_NODEV.bits() as u64,
        MountFlag::NoExec => nix::mount::MsFlags::MS_NOEXEC.bits() as u64,
        MountFlag::Remount => nix::mount::MsFlags::MS_REMOUNT.bits() as u64,
        MountFlag::Bind => nix::mount::MsFlags::MS_BIND.bits() as u64,
        MountFlag::Recursive => nix::mount::MsFlags::MS_REC.bits() as u64,
        MountFlag::Private => nix::mount::MsFlags::MS_PRIVATE.bits() as u64,
    }
}

/// The flags of several namespaces together.
pub open spec fn namespace_bits(list: Seq<Namespace>) -> i32
    decreases list.len(),
{
    if list.len() == 0 {
        0
    } else {
        namespace_bits(list.drop_last()) | namespace_bit(list.last())
    }
}

/// Puts the flags of several namespaces together.
pub fn clone_flags(list: &Vec<Namespace>) -> (r: i32)
    ensures
        r == namespace_bits(list@),
{
    let mut r: i32 = 0;
    let mut k: usize = 0;
    while k < list.len()
        invariant
            k <= list@.len(),
            r == namespace_bits(list@.take(k as int)),
        decreases list@.len() - k,
    {
        proof {
            assert(list@.take(k + 1).drop_last() =~= list@.take(k as int));
            assert(list@.take(k + 1).last() == list@[k as int]);
        }
        r = r | clone_flag_bits(list[k]);
        k = k + 1;
    }
    assert(list@.take(k as int) =~= list@);
    r
}

/// The flags of a mount together.
pub open spec fn mount_bits(list: Seq<MountFlag>) -> u64
    decreases list.len(),
{
    if list.len() == 0 {
        0
    } else {
        mount_bits(list.drop_last()) | mount_bit(list.last())
    }
}

/// Puts the flags of a mount together.
pub fn mount_flags(list: &Vec<MountFlag>) -> (r: u64)
    ensures
        r == mount_bits(list@),
{
    let mut r: u64 = 0;
    let mut k: usize = 0;
    while k < list.len()
        invariant
            k <= list@.len(),
            r == mount_bits(list@.take(k as int)),
        decreases list@.len() - k,
    {
        proof {
            assert(list@.take(k + 1).drop_last() =~= list@.take(k as int));
            assert(list@.take(k + 1).last() == list@[k as int]);
        }
        r = r | mount_flag_bits(list[k]);
        k = k + 1;
    }
    assert(list@.take(k as int) =~= list@);
    r
}

proof fn lemma_or_meets(a: i32, b: i32, c: i32)
    by (bit_vector)
    ensures
        (a | b) & c != 0 <==> (a & c != 0 || b & c != 0),
{
}

proof fn lemma_nothing_meets(c: i32)
    by (bit_vector)
    ensures
        0i32 & c == 0,
{
}

proof fn lemma_single_flags(b: i32, c: i32)
    by (bit_vector)
    requires
        b == 0x1000_0000i32 || b == 0x0002_0000i32 || b == 0x2000_0000i32 || b == 0x0800_0000i32 || b
            == 0x0400_0000i32 || b == 0x4000_0000i32,
        c == 0x1000_0000i32 || c == 0x0002_0000i32 || c == 0x2000_0000i32 || c == 0x0800_0000i32 || c
            == 0x0400_0000i32 || c == 0x4000_0000i32,
    ensures
        b & c != 0 <==> b == c,
{
}

/// The flags of some namespaces ask for just those namespaces.
pub proof fn law_flags_name_the_namespaces(list: Seq<Namespace>, n: Namespace)
    ensures
        namespace_bits(list) & namespace_bit(n) != 0 <==> list.contains(n),
    decreases list.len(),
{
    let c = namespace_bit(n);
    if list.len() == 0 {
        lemma_nothing_meets(c);
    } else {
        let rest = list.drop_last();
        let b = namespace_bit(list.last());
        law_flags_name_the_namespaces(rest, n);
        lemma_or_meets(namespace_bits(rest), b, c);
        lemma_single_flags(b, c);
        assert(b == c <==> list.last() == n);
        assert(list[list.len() - 1] == list.last());
        if rest.contains(n) {
            let k = choose|k: int| 0 <= k < rest.len() && rest[k] == n;
            assert(list[k] == n);
        }
        if list.contains(n) && list.last() != n {
            let k = choose|k: int| 0 <= k < list.len() && list[k] == n;
            assert(rest[k] == n);
        }
    }
}

proof fn lemma_or_meets_wide(a: u64, b: u64, c: u64)
    by (bit_vector)
    ensures
        (a | b) & c != 0 <==> (a & c != 0 || b & c != 0),
{
}

proof fn lemma_nothing_meets_wide(c: u64)
    by (bit_vector)
    ensures
        0u64 & c == 0,
{
}

proof fn lemma_single_mount_flags(b: u64, c: u64)
    by (bit_vector)
    requires
        b == 0x1 || b == 0x2 || b == 0x4 || b == 0x8 || b == 0x20 || b == 0x1000 || b == 0x4000 || b
            == 0x4_0000,
        c == 0x1 || c == 0x2 || c == 0x4 || c == 0x8 || c == 0x20 || c == 0x1000 || c == 0x4000 || c
            == 0x4_0000,
    ensures
        b & c != 0 <==> b == c,
{
}

/// The flags of a mount name just the flags that are listed.
pub proof fn law_flags_name_the_mount(list: Seq<MountFlag>, f: MountFlag)
    ensures
        mount_bits(list) & mount_bit(f) != 0 <==> list.contains(f),
    decreases list.len(),
{
    let c = mount_bit(f);
    if list.len() == 0 {
        lemma_nothing_meets_wide(c);
    } else {
        let rest = list.drop_last();
        let b = mount_bit(list.last());
        law_flags_name_the_mount(rest, f);
        lemma_or_meets_wide(mount_bits(rest), b, c);
        lemma_single_mount_flags(b, c);
        assert(b == c <==> list.last() == f);
        assert(list[list.len() - 1] == list.last());
        if rest.contains(f) {
            let k = choose|k: int| 0 <= k < rest.len() && rest[k] == f;
            assert(list[k] == f);
        }
        if list.contains(f) && list.last() != f {
            let k = choose|k: int| 0 <= k < list.len() && list[k] == f;
            assert(rest[k] == f);
        }
    }
}

/// The bits by which the kernel knows namespaces and flags of mounts.
pub proof fn law_bits_of_the_kernel(n: Namespace, f: MountFlag)
    ensures
        n is User ==> namespace_bit(n) == 0x1000_0000,
        n is Mount ==> namespace_bit(n) == 0x0002_0000,
        n is Pid ==> namespace_bit(n) == 0x2000_0000,
        n is Ipc ==> namespace_bit(n) == 0x0800_0000,
        n is Uts ==> namespace_bit(n) == 0x0400_0000,
        n is Net ==> namespace_bit(n) == 0x4000_0000,
        f is ReadOnly ==> mount_bit(f) == 1,
        f is NoSuid ==> mount_bit(f) == 2,
        f is NoDev ==> mount_bit(f) == 4,
        f is NoExec ==> mount_bit(f) == 8,
        f is Remount ==> mount_bit(f) == 32,
        f is Bind ==> mount_bit(f) == 4096,
        f is Recursive ==> mount_bit(f) == 16384,
        f is Private ==> mount_bit(f) == 262144,
{
}

}
