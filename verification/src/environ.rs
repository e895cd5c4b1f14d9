//! The environment of the sandboxed program: nothing of the host, some fixed
//! variables, and what the profile adds.

use vstd::prelude::*;
use crate::config::{all_texts, all_vars};
use crate::gamescope::lemma_find_one;
use crate::text::{find_from, same_text};

verus! {

/// The directories in which programs are looked for.
pub const SEARCH_PATH: &'static str = "/usr/bin:/usr/local/bin:/bin:/sbin";

/// The environment after some variables have been set, one after the other.
pub open spec fn after_setting(
    env: Map<Seq<char>, Seq<char>>,
    vars: Seq<(Seq<char>, Seq<char>)>,
) -> Map<Seq<char>, Seq<char>>
    decreases vars.len(),
{
    if vars.len() == 0 {
        env
    } else {
        after_setting(env, vars.drop_last()).insert(vars.last().0, vars.last().1)
    }
}

/// The variables that a list sets, whatever was set before.
pub open spec fn sets(vars: Seq<(Seq<char>, Seq<char>)>, name: Seq<char>) -> bool {
    exists|k: int| 0 <= k < vars.len() && (#[trigger] vars[k]).0 == name
}

/// Whether no variable stands twice in a list.
pub open spec fn names_differ(vars: Seq<(Seq<char>, Seq<char>)>) -> bool {
    forall|i: int, j: int|
        0 <= i < j < vars.len() ==> (#[trigger] vars[i]).0 != (#[trigger] vars[j]).0
}

/// Puts a variable at the end of a list.
pub fn push_var(list: &mut Vec<(String, String)>, name: &str, value: &str)
    ensures
        all_vars(final(list)@) == all_vars(old(list)@).push((name@, value@)),
{
    list.push((name.to_owned(), value.to_owned()));
    assert(all_vars(list@) =~= all_vars(old(list)@).push((name@, value@)));
}

/// Puts the variables of a list at the end of another.
pub fn push_vars(list: &mut Vec<(String, String)>, vars: &Vec<(String, String)>)
    ensures
        all_vars(final(list)@) == all_vars(old(list)@) + all_vars(vars@),
{
    let ghost before = all_vars(list@);
    let ghost added = all_vars(vars@);
    assert(before + added.take(0) =~= before);
    let mut k: usize = 0;
    while k < vars.len()
        invariant
            k <= vars@.len(),
            added == all_vars(vars@),
            all_vars(list@) == before + added.take(k as int),
        decreases vars@.len() - k,
    {
        push_var(list, vars[k].0.as_str(), vars[k].1.as_str());
        assert(before + added.take(k + 1) =~= (before + added.take(k as int)).push(
            added[k as int],
        ));
        k = k + 1;
    }
    assert(added.take(k as int) =~= added);
}

/// The variables that every sandboxed program has, before those of its profile.
pub open spec fn namespace_vars(wayland_socket: Option<Seq<char>>) -> Seq<(Seq<char>, Seq<char>)> {
    seq![
        ("PATH"@, SEARCH_PATH@),
        ("XDG_RUNTIME_DIR"@, "/run/user/1000"@),
        (
            "WAYLAND_DISPLAY"@,
            match wayland_socket {
                Some(socket) => socket,
                None => "wayland-0"@,
            },
        ),
        ("HOME"@, "/home/user"@),
        ("USER"@, "root"@),
        ("LOGNAME"@, "root"@),
    ]
}

/// Lists the variables of a program in the namespaces, in the order in which
/// they are set.
pub fn namespace_environment(
    wayland_socket: Option<&str>,
    profile: &Vec<(String, String)>,
) -> (r: Vec<(String, String)>)
    ensures
        all_vars(r@) == namespace_vars(
            match wayland_socket {
                Some(socket) => Some(socket@),
                None => None,
            },
        ) + all_vars(profile@),
{
    let mut r: Vec<(String, String)> = Vec::new();
    assert(all_vars(r@) =~= seq![]);
    push_var(&mut r, "PATH", SEARCH_PATH);
    push_var(&mut r, "XDG_RUNTIME_DIR", "/run/user/1000");
    match wayland_socket {
        Some(socket) => push_var(&mut r, "WAYLAND_DISPLAY", socket),
        None => push_var(&mut r, "WAYLAND_DISPLAY", "wayland-0"),
    }
    push_var(&mut r, "HOME", "/home/user");
    push_var(&mut r, "USER", "root");
    push_var(&mut r, "LOGNAME", "root");
    push_vars(&mut r, profile);
    r
}

/// The variables of the process that starts a microVM, before those of the
/// profile.
pub open spec fn machine_vars() -> Seq<(Seq<char>, Seq<char>)> {
    seq![
        ("PATH"@, SEARCH_PATH@),
        ("XDG_RUNTIME_DIR"@, "/run/user/1000"@),
        ("HOME"@, "/home/user"@),
        ("USER"@, "root"@),
        ("LOGNAME"@, "root"@),
    ]
}

/// Lists the variables of the process that starts a microVM, in the order in
/// which they are set.
pub fn machine_environment(profile: &Vec<(String, String)>) -> (r: Vec<(String, String)>)
    ensures
        all_vars(r@) == machine_vars() + all_vars(profile@),
{
    let mut r: Vec<(String, String)> = Vec::new();
    assert(all_vars(r@) =~= seq![]);
    push_var(&mut r, "PATH", SEARCH_PATH);
    push_var(&mut r, "XDG_RUNTIME_DIR", "/run/user/1000");
    push_var(&mut r, "HOME", "/home/user");
    push_var(&mut r, "USER", "root");
    push_var(&mut r, "LOGNAME", "root");
    push_vars(&mut r, profile);
    r
}

/// The variables that a profile had better leave alone.
pub open spec fn reserved_names() -> Seq<&'static str> {
    seq![
        "PATH",
        "XDG_RUNTIME_DIR",
        "WAYLAND_SOCKET",
        "WAYLAND_DISPLAY",
        "HOME",
        "USER",
        "LOGNAME",
    ]
}

pub open spec fn is_reserved(name: Seq<char>) -> bool {
    exists|k: int| 0 <= k < reserved_names().len() && (#[trigger] reserved_names()[k])@ == name
}

fn check_reserved(name: &str) -> (r: bool)
    ensures
        r == is_reserved(name@),
{
    let reserved: [&'static str; 7] = [
        "PATH",
        "XDG_RUNTIME_DIR",
        "WAYLAND_SOCKET",
        "WAYLAND_DISPLAY",
        "HOME",
        "USER",
        "LOGNAME",
    ];
    assert(reserved@ =~= reserved_names());
    let mut k: usize = 0;
    while k < 7
        invariant
            k <= 7,
            reserved@ == reserved_names(),
            reserved_names().len() == 7,
            forall|j: int| 0 <= j < k ==> (#[trigger] reserved_names()[j])@ != name@,
        decreases 7 - k,
    {
        if same_text(reserved[k], name) {
            assert(reserved_names()[k as int]@ == name@);
            return true;
        }
        k = k + 1;
    }
    false
}

/// The reserved variables that a profile sets all the same, in its order.
pub open spec fn reserved_in(vars: Seq<(Seq<char>, Seq<char>)>) -> Seq<Seq<char>>
    decreases vars.len(),
{
    if vars.len() == 0 {
        seq![]
    } else {
        let rest = reserved_in(vars.drop_last());
        if is_reserved(vars.last().0) {
            rest.push(vars.last().0)
        } else {
            rest
        }
    }
}

/// Lists the reserved variables that a profile sets all the same.
pub fn reserved_overrides(profile: &Vec<(String, String)>) -> (r: Vec<String>)
    ensures
        all_texts(r@) == reserved_in(all_vars(profile@)),
{
    let ghost vars = all_vars(profile@);
    let mut r: Vec<String> = Vec::new();
    assert(all_texts(r@) =~= reserved_in(vars.take(0)));
    let mut k: usize = 0;
    while k < profile.len()
        invariant
            k <= profile@.len(),
            vars == all_vars(profile@),
            all_texts(r@) == reserved_in(vars.take(k as int)),
        decreases profile@.len() - k,
    {
        let name = profile[k].0.as_str();
        proof {
            assert(vars.take(k + 1).drop_last() =~= vars.take(k as int));
            assert(vars.take(k + 1).last().0 == name@);
        }
        if check_reserved(name) {
            let ghost before = all_texts(r@);
            r.push(name.to_owned());
            assert(all_texts(r@) =~= before.push(name@));
        }
        k = k + 1;
    }
    assert(vars.take(k as int) =~= vars);
    r
}

/// What setting some variables leaves of a variable: its last value in the list,
/// or else what it was.
pub proof fn lemma_after_setting(
    env: Map<Seq<char>, Seq<char>>,
    vars: Seq<(Seq<char>, Seq<char>)>,
    name: Seq<char>,
)
    ensures
        after_setting(env, vars).dom().contains(name) <==> env.dom().contains(name) || sets(
            vars,
            name,
        ),
        !sets(vars, name) && env.dom().contains(name) ==> after_setting(env, vars)[name]
            == env[name],
        forall|k: int|
            0 <= k < vars.len() && vars[k].0 == name && (forall|j: int|
                k < j < vars.len() ==> (#[trigger] vars[j]).0 != name) ==> after_setting(
                env,
                vars,
            )[name] == (#[trigger] vars[k]).1,
    decreases vars.len(),
{
    if vars.len() > 0 {
        let rest = vars.drop_last();
        let n = vars.len() - 1;
        lemma_after_setting(env, rest, name);
        assert(forall|j: int| 0 <= j < n ==> rest[j] == vars[j]);
        assert(vars[n] == vars.last());
        if sets(rest, name) {
            let k = choose|k: int| 0 <= k < rest.len() && (#[trigger] rest[k]).0 == name;
            assert(vars[k].0 == name);
        }
        assert forall|k: int|
            0 <= k < vars.len() && vars[k].0 == name && (forall|j: int|
                k < j < vars.len() ==> (#[trigger] vars[j]).0 != name) implies after_setting(
            env,
            vars,
        )[name] == (#[trigger] vars[k]).1 by {
            if k < n {
                assert(vars[n].0 != name);
                assert(rest[k] == vars[k]);
                assert forall|j: int| k < j < rest.len() implies (#[trigger] rest[j]).0 != name by {
                    assert(rest[j] == vars[j]);
                }
            }
        }
    }
}

/// Where each variable stands once, the order in which a profile's variables are
/// set changes nothing.
pub proof fn law_order_of_variables_is_immaterial(
    env: Map<Seq<char>, Seq<char>>,
    a: Seq<(Seq<char>, Seq<char>)>,
    b: Seq<(Seq<char>, Seq<char>)>,
)
    requires
        names_differ(a),
        names_differ(b),
        a.to_set() == b.to_set(),
    ensures
        after_setting(env, a) == after_setting(env, b),
{
    let ea = after_setting(env, a);
    let eb = after_setting(env, b);
    assert forall|name: Seq<char>| sets(a, name) implies sets(b, name) && ea[name] == eb[name] by {
        let i = choose|k: int| 0 <= k < a.len() && (#[trigger] a[k]).0 == name;
        assert(a.to_set().contains(a[i]));
        assert(b.contains(a[i]));
        let j = choose|k: int| 0 <= k < b.len() && b[k] == a[i];
        assert(b[j].0 == name);
        lemma_after_setting(env, a, name);
        lemma_after_setting(env, b, name);
        assert(ea[name] == a[i].1);
        assert(eb[name] == b[j].1);
    }
    assert forall|name: Seq<char>| sets(b, name) implies sets(a, name) by {
        let i = choose|k: int| 0 <= k < b.len() && (#[trigger] b[k]).0 == name;
        assert(b.to_set().contains(b[i]));
        assert(a.contains(b[i]));
        let j = choose|k: int| 0 <= k < a.len() && a[k] == b[i];
        assert(a[j].0 == name);
    }
    assert forall|name: Seq<char>| ea.dom().contains(name) == eb.dom().contains(name) by {
        lemma_after_setting(env, a, name);
        lemma_after_setting(env, b, name);
    }
    assert forall|name: Seq<char>| ea.dom().contains(name) implies ea[name] == eb[name] by {
        lemma_after_setting(env, a, name);
        lemma_after_setting(env, b, name);
    }
    assert(ea =~= eb);
}

/// The environment in which a program of the namespaces runs.
pub open spec fn namespace_env(
    wayland_socket: Option<Seq<char>>,
    profile: Seq<(Seq<char>, Seq<char>)>,
) -> Map<Seq<char>, Seq<char>> {
    after_setting(Map::empty(), namespace_vars(wayland_socket) + profile)
}

/// The environment holds a variable only where the profile sets it or it is one
/// of the fixed ones: nothing comes from the host.
pub proof fn law_environment_is_scrubbed(
    wayland_socket: Option<Seq<char>>,
    profile: Seq<(Seq<char>, Seq<char>)>,
    name: Seq<char>,
)
    ensures
        namespace_env(wayland_socket, profile).dom().contains(name) <==> sets(profile, name)
            || is_reserved(name) && name != "WAYLAND_SOCKET"@,
{
    let fixed = namespace_vars(wayland_socket);
    let vars = fixed + profile;
    lemma_after_setting(Map::empty(), vars, name);
    if sets(vars, name) {
        let k = choose|k: int| 0 <= k < vars.len() && (#[trigger] vars[k]).0 == name;
        if k < 6 {
            assert(vars[k] == fixed[k]);
            lemma_fixed_name_is_reserved(wayland_socket, k);
        } else {
            assert(profile[k - 6].0 == name);
        }
    }
    if sets(profile, name) {
        let k = choose|k: int| 0 <= k < profile.len() && (#[trigger] profile[k]).0 == name;
        assert(vars[k + 6].0 == name);
    }
    if is_reserved(name) && name != "WAYLAND_SOCKET"@ {
        let k = choose|k: int|
            0 <= k < reserved_names().len() && (#[trigger] reserved_names()[k])@ == name;
        assert(k != 2);
        let at = if k < 2 {
            k
        } else {
            k - 1
        };
        assert(fixed[at].0 == name);
        assert(vars[at].0 == name);
    }
}

proof fn lemma_fixed_name_is_reserved(wayland_socket: Option<Seq<char>>, k: int)
    requires
        0 <= k < 6,
    ensures
        is_reserved(namespace_vars(wayland_socket)[k].0),
        namespace_vars(wayland_socket)[k].0 != "WAYLAND_SOCKET"@,
{
    reveal_strlit("PATH");
    reveal_strlit("XDG_RUNTIME_DIR");
    reveal_strlit("WAYLAND_SOCKET");
    reveal_strlit("WAYLAND_DISPLAY");
    reveal_strlit("HOME");
    reveal_strlit("USER");
    reveal_strlit("LOGNAME");
    let at = if k < 2 {
        k
    } else {
        k + 1
    };
    assert(reserved_names()[at]@ == namespace_vars(wayland_socket)[k].0);
    assert("WAYLAND_SOCKET"@.len() == 14);
    assert("PATH"@.len() == 4 && "XDG_RUNTIME_DIR"@.len() == 15 && "WAYLAND_DISPLAY"@.len() == 15
        && "HOME"@.len() == 4 && "USER"@.len() == 4 && "LOGNAME"@.len() == 7);
}

/// A fixed variable that the profile leaves alone has its fixed value, so the
/// program sees neither the user nor the home of the host.
pub proof fn law_identity_is_fixed(
    wayland_socket: Option<Seq<char>>,
    profile: Seq<(Seq<char>, Seq<char>)>,
    k: int,
)
    requires
        0 <= k < namespace_vars(wayland_socket).len(),
        !sets(profile, namespace_vars(wayland_socket)[k].0),
    ensures
        namespace_env(wayland_socket, profile)[namespace_vars(wayland_socket)[k].0]
            == namespace_vars(wayland_socket)[k].1,
{
    let fixed = namespace_vars(wayland_socket);
    let vars = fixed + profile;
    let name = fixed[k].0;
    lemma_after_setting(Map::empty(), vars, name);
    assert(vars[k].0 == name);
    assert forall|j: int| k < j < vars.len() implies (#[trigger] vars[j]).0 != name by {
        if j < 6 {
            lemma_fixed_names_differ(wayland_socket, k, j);
            assert(vars[j] == fixed[j]);
        } else {
            assert(vars[j] == profile[j - 6]);
        }
    }
}

proof fn lemma_fixed_names_differ(wayland_socket: Option<Seq<char>>, i: int, j: int)
    requires
        0 <= i < j < 6,
    ensures
        namespace_vars(wayland_socket)[i].0 != namespace_vars(wayland_socket)[j].0,
{
    reveal_strlit("PATH");
    reveal_strlit("XDG_RUNTIME_DIR");
    reveal_strlit("WAYLAND_DISPLAY");
    reveal_strlit("HOME");
    reveal_strlit("USER");
    reveal_strlit("LOGNAME");
    assert("PATH"@.len() == 4 && "XDG_RUNTIME_DIR"@.len() == 15 && "WAYLAND_DISPLAY"@.len() == 15
        && "HOME"@.len() == 4 && "USER"@.len() == 4 && "LOGNAME"@.len() == 7);
    assert("PATH"@[0] == 'P' && "HOME"@[0] == 'H' && "USER"@[0] == 'U');
    assert("XDG_RUNTIME_DIR"@[0] == 'X' && "WAYLAND_DISPLAY"@[0] == 'W');
}

/// The environment of the process that starts a microVM holds a variable only
/// where the profile sets it or it is one of the fixed ones, too.
pub proof fn law_machine_environment_is_scrubbed(
    profile: Seq<(Seq<char>, Seq<char>)>,
    name: Seq<char>,
)
    ensures
        after_setting(Map::empty(), machine_vars() + profile).dom().contains(name) <==> sets(
            profile,
            name,
        ) || sets(machine_vars(), name),
{
    let fixed = machine_vars();
    let vars = fixed + profile;
    lemma_after_setting(Map::empty(), vars, name);
    if sets(vars, name) {
        let k = choose|k: int| 0 <= k < vars.len() && (#[trigger] vars[k]).0 == name;
        if k < 5 {
            assert(fixed[k].0 == name);
        } else {
            assert(profile[k - 5].0 == name);
        }
    }
    if sets(profile, name) {
        let k = choose|k: int| 0 <= k < profile.len() && (#[trigger] profile[k]).0 == name;
        assert(vars[k + 5].0 == name);
    }
    if sets(fixed, name) {
        let k = choose|k: int| 0 <= k < fixed.len() && (#[trigger] fixed[k]).0 == name;
        assert(vars[k].0 == name);
    }
}

/// A variable as one line.
pub open spec fn line_of(name: Seq<char>, value: Seq<char>) -> Seq<char> {
    name + "="@ + value
}

/// Variables as lines.
pub open spec fn lines_of(vars: Seq<(Seq<char>, Seq<char>)>) -> Seq<Seq<char>> {
    Seq::new(vars.len(), |k: int| line_of(vars[k].0, vars[k].1))
}

/// Puts a variable at the end of a list of lines.
pub fn push_line(list: &mut Vec<String>, name: &str, value: &str)
    ensures
        all_texts(final(list)@) == all_texts(old(list)@).push(line_of(name@, value@)),
{
    list.push(name.to_owned().concat("=").concat(value));
    assert(all_texts(list@) =~= all_texts(old(list)@).push(line_of(name@, value@)));
}

/// Puts variables at the end of a list of lines.
pub fn push_lines(list: &mut Vec<String>, vars: &Vec<(String, String)>)
    ensures
        all_texts(final(list)@) == all_texts(old(list)@) + lines_of(all_vars(vars@)),
{
    let ghost before = all_texts(list@);
    let ghost added = lines_of(all_vars(vars@));
    assert(before + added.take(0) =~= before);
    let mut k: usize = 0;
    while k < vars.len()
        invariant
            k <= vars@.len(),
            added == lines_of(all_vars(vars@)),
            all_texts(list@) == before + added.take(k as int),
        decreases vars@.len() - k,
    {
        push_line(list, vars[k].0.as_str(), vars[k].1.as_str());
        assert(before + added.take(k + 1) =~= (before + added.take(k as int)).push(
            added[k as int],
        ));
        k = k + 1;
    }
    assert(added.take(k as int) =~= added);
}

/// The variable that a line sets: its name ends at the first `=`.
pub open spec fn var_in(line: Seq<char>) -> (Seq<char>, Seq<char>) {
    match find_from(line, "="@, 0) {
        Some(i) => (line.take(i), line.skip(i + 1)),
        None => (line, seq![]),
    }
}

/// The environment that lines give, one after the other.
pub open spec fn env_in(lines: Seq<Seq<char>>) -> Map<Seq<char>, Seq<char>> {
    after_setting(Map::empty(), Seq::new(lines.len(), |k: int| var_in(lines[k])))
}

/// A variable whose name holds no `=` is found again in its line.
pub proof fn lemma_line_names_its_variable(name: Seq<char>, value: Seq<char>)
    requires
        !name.contains('='),
    ensures
        var_in(line_of(name, value)) == (name, value),
{
    reveal_strlit("=");
    assert("="@ =~= seq!['=']);
    let line = line_of(name, value);
    lemma_find_one(line, '=', 0);
    assert(line[name.len() as int] == '=');
    let i = find_from(line, "="@, 0)->0;
    if i < name.len() {
        assert(name[i] == '=');
    }
    assert(line.take(i) =~= name);
    assert(line.skip(i + 1) =~= value);
}

/// Behind whatever lines, variables that differ in name and hold no `=` in it are
/// in force.
pub proof fn law_last_lines_are_in_force(
    first: Seq<Seq<char>>,
    vars: Seq<(Seq<char>, Seq<char>)>,
    k: int,
)
    requires
        names_differ(vars),
        forall|j: int| 0 <= j < vars.len() ==> !(#[trigger] vars[j]).0.contains('='),
        0 <= k < vars.len(),
    ensures
        env_in(first + lines_of(vars)).dom().contains(vars[k].0),
        env_in(first + lines_of(vars))[vars[k].0] == vars[k].1,
{
    let lines = first + lines_of(vars);
    let pairs = Seq::new(lines.len(), |j: int| var_in(lines[j]));
    let n = first.len() as int;
    assert forall|j: int| 0 <= j < vars.len() implies pairs[n + j] == #[trigger] vars[j] by {
        lemma_line_names_its_variable(vars[j].0, vars[j].1);
        assert(lines[n + j] == line_of(vars[j].0, vars[j].1));
    }
    lemma_after_setting(Map::empty(), pairs, vars[k].0);
    assert(pairs[n + k] == vars[k]);
    assert forall|j: int| n + k < j < pairs.len() implies (#[trigger] pairs[j]).0 != vars[k].0 by {
        assert(pairs[n + (j - n)] == vars[j - n]);
    }
    assert(sets(pairs, vars[k].0));
}

/// What the sandboxed program finds in its environment: what the profile sets, as
/// the profile sets it, and else these values and no others.
pub proof fn law_variables_of_the_sandbox(
    wayland_socket: Option<Seq<char>>,
    profile: Seq<(Seq<char>, Seq<char>)>,
    name: Seq<char>,
)
    ensures
        ({
            let env = namespace_env(wayland_socket, profile);
            &&& !sets(profile, name) ==> (env.dom().contains(name) <==> {
                ||| name == "PATH"@
                ||| name == "XDG_RUNTIME_DIR"@
                ||| name == "WAYLAND_DISPLAY"@
                ||| name == "HOME"@
                ||| name == "USER"@
                ||| name == "LOGNAME"@
            })
            &&& !sets(profile, "PATH"@) ==> env["PATH"@] == "/usr/bin:/usr/local/bin:/bin:/sbin"@
            &&& !sets(profile, "XDG_RUNTIME_DIR"@) ==> env["XDG_RUNTIME_DIR"@] == "/run/user/1000"@
            &&& !sets(profile, "WAYLAND_DISPLAY"@) ==> env["WAYLAND_DISPLAY"@] == match wayland_socket {
                Some(socket) => socket,
                None => "wayland-0"@,
            }
            &&& !sets(profile, "HOME"@) ==> env["HOME"@] == "/home/user"@
            &&& !sets(profile, "USER"@) ==> env["USER"@] == "root"@
            &&& !sets(profile, "LOGNAME"@) ==> env["LOGNAME"@] == "root"@
            &&& forall|k: int|
                0 <= k < profile.len() && names_differ(profile) ==> env.dom().contains(
                    (#[trigger] profile[k]).0,
                ) && env[profile[k].0] == profile[k].1
        }),
{
    let fixed = namespace_vars(wayland_socket);
    let vars = fixed + profile;
    let env = namespace_env(wayland_socket, profile);
    lemma_after_setting(Map::empty(), vars, name);
    assert(fixed[0].0 == "PATH"@ && vars[0] == fixed[0]);
    assert(fixed[1].0 == "XDG_RUNTIME_DIR"@ && vars[1] == fixed[1]);
    assert(fixed[2].0 == "WAYLAND_DISPLAY"@ && vars[2] == fixed[2]);
    assert(fixed[3].0 == "HOME"@ && vars[3] == fixed[3]);
    assert(fixed[4].0 == "USER"@ && vars[4] == fixed[4]);
    assert(fixed[5].0 == "LOGNAME"@ && vars[5] == fixed[5]);
    if !sets(profile, "PATH"@) {
        law_identity_is_fixed(wayland_socket, profile, 0);
    }
    if !sets(profile, "XDG_RUNTIME_DIR"@) {
        law_identity_is_fixed(wayland_socket, profile, 1);
    }
    if !sets(profile, "WAYLAND_DISPLAY"@) {
        law_identity_is_fixed(wayland_socket, profile, 2);
    }
    if !sets(profile, "HOME"@) {
        law_identity_is_fixed(wayland_socket, profile, 3);
    }
    if !sets(profile, "USER"@) {
        law_identity_is_fixed(wayland_socket, profile, 4);
    }
    if !sets(profile, "LOGNAME"@) {
        law_identity_is_fixed(wayland_socket, profile, 5);
    }
    if !sets(profile, name) && sets(vars, name) {
        let k = choose|k: int| 0 <= k < vars.len() && (#[trigger] vars[k]).0 == name;
        if k >= 6 {
            assert(vars[k] == profile[k - 6]);
        }
        assert(vars[k] == fixed[k]);
    }
    assert forall|k: int| 0 <= k < profile.len() && names_differ(profile) implies env.dom().contains(
        (#[trigger] profile[k]).0,
    ) && env[profile[k].0] == profile[k].1 by {
        lemma_profile_is_in_force(fixed, profile, k);
    }
}

proof fn lemma_profile_is_in_force(
    fixed: Seq<(Seq<char>, Seq<char>)>,
    profile: Seq<(Seq<char>, Seq<char>)>,
    k: int,
)
    requires
        names_differ(profile),
        0 <= k < profile.len(),
    ensures
        after_setting(Map::empty(), fixed + profile).dom().contains(profile[k].0),
        after_setting(Map::empty(), fixed + profile)[profile[k].0] == profile[k].1,
{
    let vars = fixed + profile;
    let n = fixed.len() as int;
    let name = profile[k].0;
    lemma_after_setting(Map::empty(), vars, name);
    assert(vars[n + k] == profile[k]);
    assert forall|j: int| n + k < j < vars.len() implies (#[trigger] vars[j]).0 != name by {
        assert(vars[j] == profile[j - n]);
    }
}

/// What the process around a microVM finds in its environment: what the profile
/// sets, as the profile sets it, and else these values and no others.
pub proof fn law_variables_of_the_machine(
    profile: Seq<(Seq<char>, Seq<char>)>,
    name: Seq<char>,
)
    ensures
        ({
            let env = after_setting(Map::empty(), machine_vars() + profile);
            &&& !sets(profile, name) ==> (env.dom().contains(name) <==> {
                ||| name == "PATH"@
                ||| name == "XDG_RUNTIME_DIR"@
                ||| name == "HOME"@
                ||| name == "USER"@
                ||| name == "LOGNAME"@
            })
            &&& !sets(profile, "PATH"@) ==> env["PATH"@] == "/usr/bin:/usr/local/bin:/bin:/sbin"@
            &&& !sets(profile, "XDG_RUNTIME_DIR"@) ==> env["XDG_RUNTIME_DIR"@] == "/run/user/1000"@
            &&& !sets(profile, "HOME"@) ==> env["HOME"@] == "/home/user"@
            &&& !sets(profile, "USER"@) ==> env["USER"@] == "root"@
            &&& !sets(profile, "LOGNAME"@) ==> env["LOGNAME"@] == "root"@
            &&& forall|k: int|
                0 <= k < profile.len() && names_differ(profile) ==> env.dom().contains(
                    (#[trigger] profile[k]).0,
                ) && env[profile[k].0] == profile[k].1
        }),
{
    let fixed = machine_vars();
    let vars = fixed + profile;
    let env = after_setting(Map::empty(), vars);
    lemma_after_setting(Map::empty(), vars, name);
    assert(fixed[0].0 == "PATH"@ && vars[0] == fixed[0]);
    assert(fixed[1].0 == "XDG_RUNTIME_DIR"@ && vars[1] == fixed[1]);
    assert(fixed[2].0 == "HOME"@ && vars[2] == fixed[2]);
    assert(fixed[3].0 == "USER"@ && vars[3] == fixed[3]);
    assert(fixed[4].0 == "LOGNAME"@ && vars[4] == fixed[4]);
    if !sets(profile, "PATH"@) {
        lemma_machine_value(profile, 0);
    }
    if !sets(profile, "XDG_RUNTIME_DIR"@) {
        lemma_machine_value(profile, 1);
    }
    if !sets(profile, "HOME"@) {
        lemma_machine_value(profile, 2);
    }
    if !sets(profile, "USER"@) {
        lemma_machine_value(profile, 3);
    }
    if !sets(profile, "LOGNAME"@) {
        lemma_machine_value(profile, 4);
    }
    if !sets(profile, name) && sets(vars, name) {
        let k = choose|k: int| 0 <= k < vars.len() && (#[trigger] vars[k]).0 == name;
        if k >= 5 {
            assert(vars[k] == profile[k - 5]);
        }
        assert(vars[k] == fixed[k]);
    }
    assert forall|k: int| 0 <= k < profile.len() && names_differ(profile) implies env.dom().contains(
        (#[trigger] profile[k]).0,
    ) && env[profile[k].0] == profile[k].1 by {
        lemma_profile_is_in_force(fixed, profile, k);
    }
}

proof fn lemma_machine_value(profile: Seq<(Seq<char>, Seq<char>)>, k: int)
    requires
        0 <= k < 5,
        !sets(profile, machine_vars()[k].0),
    ensures
        after_setting(Map::empty(), machine_vars() + profile)[machine_vars()[k].0]
            == machine_vars()[k].1,
{
    let fixed = machine_vars();
    let vars = fixed + profile;
    let name = fixed[k].0;
    reveal_strlit("PATH");
    reveal_strlit("XDG_RUNTIME_DIR");
    reveal_strlit("HOME");
    reveal_strlit("USER");
    reveal_strlit("LOGNAME");
    assert("PATH"@.len() == 4 && "XDG_RUNTIME_DIR"@.len() == 15 && "HOME"@.len() == 4
        && "USER"@.len() == 4 && "LOGNAME"@.len() == 7);
    assert("PATH"@[0] == 'P' && "HOME"@[0] == 'H' && "USER"@[0] == 'U');
    lemma_after_setting(Map::empty(), vars, name);
    assert(vars[k].0 == name);
    assert forall|j: int| k < j < vars.len() implies (#[trigger] vars[j]).0 != name by {
        if j < 5 {
            assert(vars[j] == fixed[j]);
        } else {
            assert(vars[j] == profile[j - 5]);
        }
    }
}

/// Which variables of a profile are worth a warning: each one by itself, in the
/// order of the profile, where it has one of these names.
pub proof fn law_reserved_names_are_noticed(
    vars: Seq<(Seq<char>, Seq<char>)>,
    name: Seq<char>,
    value: Seq<char>,
)
    ensures
        reserved_in(vars.push((name, value))) == if name == "PATH"@ || name == "XDG_RUNTIME_DIR"@
            || name == "WAYLAND_SOCKET"@ || name == "WAYLAND_DISPLAY"@ || name == "HOME"@ || name
            == "USER"@ || name == "LOGNAME"@ {
            reserved_in(vars).push(name)
        } else {
            reserved_in(vars)
        },
        vars.len() == 0 ==> reserved_in(vars).len() == 0,
{
    assert(vars.push((name, value)).drop_last() =~= vars);
    let r = reserved_names();
    assert(r[0] == "PATH" && r[1] == "XDG_RUNTIME_DIR" && r[2] == "WAYLAND_SOCKET" && r[3]
        == "WAYLAND_DISPLAY" && r[4] == "HOME" && r[5] == "USER" && r[6] == "LOGNAME");
    if is_reserved(name) {
        let k = choose|k: int| 0 <= k < r.len() && (#[trigger] r[k])@ == name;
        assert(0 <= k < 7);
    }
}

/// Names differ if and only if no variable bears the name of one before it.
pub proof fn law_names_differ_one_by_one(
    vars: Seq<(Seq<char>, Seq<char>)>,
    name: Seq<char>,
    value: Seq<char>,
)
    ensures
        names_differ(vars.push((name, value))) <==> names_differ(vars) && !sets(vars, name),
        vars.len() <= 1 ==> names_differ(vars),
        sets(vars.push((name, value)), name),
{
    let more = vars.push((name, value));
    let n = vars.len() as int;
    assert(more[n].0 == name);
    assert(forall|k: int| 0 <= k < n ==> more[k] == #[trigger] vars[k]);
    if names_differ(more) {
        assert forall|i: int, j: int| 0 <= i < j < vars.len() implies (#[trigger] vars[i]).0 != (
        #[trigger] vars[j]).0 by {
            assert(more[i].0 != more[j].0);
        }
        if sets(vars, name) {
            let k = choose|k: int| 0 <= k < vars.len() && (#[trigger] vars[k]).0 == name;
            assert(more[k].0 != more[n].0);
        }
    }
    if names_differ(vars) && !sets(vars, name) {
        assert forall|i: int, j: int| 0 <= i < j < more.len() implies (#[trigger] more[i]).0 != (
        #[trigger] more[j]).0 by {
            assert(more[i] == vars[i]);
            if j < n {
                assert(more[j] == vars[j]);
            }
        }
    }
}

}
