//! How Gamescope is called: the size of its screen, and the wrapper that starts
//! the program again inside it.

use vstd::prelude::*;
use vstd::string::*;
use crate::config::{all_texts, opt_text, Filter, GraphicsConfig, GraphicsView, Scaler};
use crate::text::{
    all_bytes, bytes, chars, find, find_from, no_bytes, push_bytes, same_text, stands_at, utf8,
};

verus! {

/// The width and the height in a resolution, which has one `x` between them.
pub open spec fn resolution_of(r: Seq<char>) -> Option<(Seq<char>, Seq<char>)> {
    match find_from(r, "x"@, 0) {
        Some(i) => if find_from(r, "x"@, i + 1) is None {
            Some((r.take(i), r.skip(i + 1)))
        } else {
            None
        },
        None => None,
    }
}

/// Finds the width and the height in a resolution.
pub fn split_resolution(r: &str) -> (parts: Option<(String, String)>)
    ensures
        match parts {
            Some((w, h)) => resolution_of(r@) == Some((w@, h@)),
            None => resolution_of(r@) is None,
        },
{
    let s = chars(r);
    let x = chars("x");
    proof {
        reveal_strlit("x");
        assert(s@.take(s@.len() as int) =~= r@);
    }
    let n = s.len();
    match find(&s, n, &x, 0) {
        Some(i) => match find(&s, n, &x, i + 1) {
            Some(_) => None,
            None => {
                assert(r@.take(i as int) =~= r@.subrange(0, i as int));
                assert(r@.skip(i + 1) =~= r@.subrange(i + 1, n as int));
                Some((r.substring_char(0, i).to_owned(), r.substring_char(i + 1, n).to_owned()))
            },
        },
        None => None,
    }
}

/// Where a character is found first.
pub proof fn lemma_find_one(s: Seq<char>, c: char, i: int)
    requires
        0 <= i,
    ensures
        match find_from(s, seq![c], i) {
            Some(k) => i <= k < s.len() && s[k] == c && forall|j: int| i <= j < k ==> s[j] != c,
            None => forall|j: int| i <= j < s.len() ==> s[j] != c,
        },
    decreases s.len() + 1 - i,
{
    if i <= s.len() {
        if i < s.len() {
            assert(s.subrange(i, i + 1) =~= seq![s[i]]);
            assert(seq![s[i]][0] == s[i] && seq![c][0] == c);
        }
        if !stands_at(s, seq![c], i) {
            lemma_find_one(s, c, i + 1);
        }
    }
}

/// A width and a height that hold no `x` themselves are found again in the
/// resolution that is made of them, and a resolution is made of the width and
/// the height that are found in it.
pub proof fn law_resolution_is_width_x_height(r: Seq<char>, w: Seq<char>, h: Seq<char>)
    ensures
        resolution_of(r) == Some((w, h)) <==> r == w + "x"@ + h && !w.contains('x') && !h.contains(
            'x',
        ),
{
    reveal_strlit("x");
    assert("x"@ =~= seq!['x']);
    lemma_find_one(r, 'x', 0);
    let found = find_from(r, "x"@, 0);
    if let Some(i) = found {
        lemma_find_one(r, 'x', i + 1);
        assert(r =~= r.take(i) + "x"@ + r.skip(i + 1));
        if resolution_of(r) == Some((w, h)) {
            assert forall|j: int| 0 <= j < h.len() implies h[j] != 'x' by {
                assert(h[j] == r[i + 1 + j]);
            }
        }
    }
    if r == w + "x"@ + h && !w.contains('x') && !h.contains('x') {
        assert(r[w.len() as int] == 'x');
        assert(found is Some);
        let i = found->0;
        if i < w.len() {
            assert(w[i] == 'x');
        }
        assert(i == w.len());
        lemma_find_one(r, 'x', i + 1);
        if let Some(k) = find_from(r, "x"@, i + 1) {
            assert(h[k - i - 1] == r[k]);
        }
        assert(r.take(i) =~= w);
        assert(r.skip(i + 1) =~= h);
    }
}

/// The arguments that set the size of the screen.
pub open spec fn size_args(resolution: Option<Seq<char>>) -> Seq<Seq<u8>> {
    match resolution {
        Some(r) => match resolution_of(r) {
            Some((w, h)) => seq![utf8("-W"@), utf8(w), utf8("-H"@), utf8(h)],
            None => seq![],
        },
        None => seq![],
    }
}

/// Adds the arguments that set the size of the screen.
pub fn push_size_args(list: &mut Vec<Vec<u8>>, resolution: &Option<String>)
    ensures
        all_bytes(final(list)@) == all_bytes(old(list)@) + size_args(opt_text(*resolution)),
{
    let ghost before = all_bytes(list@);
    if let Some(r) = resolution {
        if let Some((w, h)) = split_resolution(r.as_str()) {
            push_bytes(list, bytes("-W"));
            push_bytes(list, bytes(w.as_str()));
            push_bytes(list, bytes("-H"));
            push_bytes(list, bytes(h.as_str()));
            assert(all_bytes(list@) =~= before + size_args(opt_text(*resolution)));
            return;
        }
    }
    assert(size_args(opt_text(*resolution)) =~= seq![]);
    assert(before + seq![] =~= before);
}

/// Texts by their bytes.
pub open spec fn utf8_of(texts: Seq<Seq<char>>) -> Seq<Seq<u8>> {
    Seq::new(texts.len(), |k: int| utf8(texts[k]))
}

/// Adds texts to a list, each by its bytes.
pub fn push_texts(list: &mut Vec<Vec<u8>>, texts: &Vec<String>)
    ensures
        all_bytes(final(list)@) == all_bytes(old(list)@) + utf8_of(all_texts(texts@)),
{
    let ghost before = all_bytes(list@);
    let ghost added = utf8_of(all_texts(texts@));
    assert(before + added.take(0) =~= before);
    let mut k: usize = 0;
    while k < texts.len()
        invariant
            k <= texts@.len(),
            added == utf8_of(all_texts(texts@)),
            all_bytes(list@) == before + added.take(k as int),
        decreases texts@.len() - k,
    {
        push_bytes(list, bytes(texts[k].as_str()));
        assert(before + added.take(k + 1) =~= (before + added.take(k as int)).push(
            added[k as int],
        ));
        k = k + 1;
    }
    assert(added.take(k as int) =~= added);
}

/// How Gamescope calls a way to fit the picture.
pub open spec fn scaler_word(s: Scaler) -> &'static str {
    match s {
        Scaler::Auto => "auto",
        Scaler::Integer => "integer",
        Scaler::Fit => "fit",
        Scaler::Fill => "fill",
        Scaler::Stretch => "stretch",
    }
}

/// How Gamescope calls a filter.
pub open spec fn filter_word(f: Filter) -> &'static str {
    match f {
        Filter::Linear => "linear",
        Filter::Nearest => "nearest",
        Filter::Fsr => "fsr",
        Filter::Nis => "nis",
        Filter::Pixel => "pixel",
    }
}

pub fn scaler_name(s: Scaler) -> (r: &'static str)
    ensures
        r == scaler_word(s),
{
    match s {
        Scaler::Auto => "auto",
        Scaler::Integer => "integer",
        Scaler::Fit => "fit",
        Scaler::Fill => "fill",
        Scaler::Stretch => "stretch",
    }
}

pub fn filter_name(f: Filter) -> (r: &'static str)
    ensures
        r == filter_word(f),
{
    match f {
        Filter::Linear => "linear",
        Filter::Nearest => "nearest",
        Filter::Fsr => "fsr",
        Filter::Nis => "nis",
        Filter::Pixel => "pixel",
    }
}

/// Whether the wrapper hands an argument of the profile on to Gamescope.
pub open spec fn is_kept(arg: Seq<char>) -> bool {
    arg != "--xwayland-count"@ && arg != "0"@
}

/// The arguments of the profile that are handed on.
pub open spec fn kept_args(args: Seq<Seq<char>>) -> Seq<Seq<u8>>
    decreases args.len(),
{
    if args.len() == 0 {
        seq![]
    } else {
        let rest = kept_args(args.drop_last());
        if is_kept(args.last()) {
            rest.push(utf8(args.last()))
        } else {
            rest
        }
    }
}

/// The arguments that choose a way to fit the picture.
pub open spec fn scaler_args(s: Option<Scaler>) -> Seq<Seq<u8>> {
    match s {
        Some(s) => seq![utf8("-S"@), utf8(scaler_word(s)@)],
        None => seq![],
    }
}

/// The arguments that choose a filter.
pub open spec fn filter_args(f: Option<Filter>) -> Seq<Seq<u8>> {
    match f {
        Some(f) => seq![utf8("-F"@), utf8(filter_word(f)@)],
        None => seq![],
    }
}

/// The arguments with which Gamescope starts a program again inside itself.
pub open spec fn wrapper_args_of(
    g: GraphicsView,
    program: Seq<u8>,
    args: Seq<Seq<char>>,
) -> Seq<Seq<u8>> {
    size_args(g.resolution) + scaler_args(g.scaler) + filter_args(g.filter) + kept_args(
        g.gamescope_args,
    ) + seq![utf8("--"@), program] + utf8_of(args)
}

/// Lists the arguments with which Gamescope starts a program again inside
/// itself.
pub fn wrapper_args(g: &GraphicsConfig, program: Vec<u8>, args: &Vec<String>) -> (r: Vec<Vec<u8>>)
    ensures
        all_bytes(r@) == wrapper_args_of(g@, program@, all_texts(args@)),
{
    let ghost wanted = all_texts(g.gamescope_args@);
    let mut r = no_bytes();
    push_size_args(&mut r, &g.resolution);
    assert(all_bytes(r@) =~= size_args(g@.resolution));
    let ghost a = all_bytes(r@);
    if let Some(s) = g.scaler {
        push_bytes(&mut r, bytes("-S"));
        push_bytes(&mut r, bytes(scaler_name(s)));
    }
    assert(all_bytes(r@) =~= a + scaler_args(g@.scaler));
    let ghost b = all_bytes(r@);
    if let Some(f) = g.filter {
        push_bytes(&mut r, bytes("-F"));
        push_bytes(&mut r, bytes(filter_name(f)));
    }
    assert(all_bytes(r@) =~= b + filter_args(g@.filter));
    let ghost c = all_bytes(r@);
    assert(c + kept_args(wanted.take(0)) =~= c);
    let mut k: usize = 0;
    while k < g.gamescope_args.len()
        invariant
            k <= g.gamescope_args@.len(),
            wanted == all_texts(g.gamescope_args@),
            all_bytes(r@) == c + kept_args(wanted.take(k as int)),
        decreases g.gamescope_args@.len() - k,
    {
        let arg = g.gamescope_args[k].as_str();
        proof {
            assert(wanted.take(k + 1).drop_last() =~= wanted.take(k as int));
            assert(wanted.take(k + 1).last() == arg@);
        }
        if !same_text(arg, "--xwayland-count") && !same_text(arg, "0") {
            push_bytes(&mut r, bytes(arg));
            assert(all_bytes(r@) =~= c + kept_args(wanted.take(k + 1)));
        }
        k = k + 1;
    }
    assert(wanted.take(k as int) =~= wanted);
    let ghost d = all_bytes(r@);
    let ghost own = program@;
    push_bytes(&mut r, bytes("--"));
    push_bytes(&mut r, program);
    assert(all_bytes(r@) =~= d + seq![utf8("--"@), own]);
    push_texts(&mut r, args);
    r
}

/// Whether the program is started again inside Gamescope.
pub open spec fn is_wrapped(gamescope: bool, inner: bool) -> bool {
    gamescope && !inner
}

/// The exit code of the wrapper.
pub open spec fn wrapper_code(code: Option<i32>) -> i32 {
    match code {
        Some(c) => c,
        None => 1,
    }
}

/// Decides whether the program is started again inside Gamescope: where the
/// profile asks for it, unless it runs there already.
pub fn wraps(g: &GraphicsConfig, inner: bool) -> (r: bool)
    ensures
        r == (g@.gamescope && !inner),
        r == is_wrapped(g@.gamescope, inner),
{
    g.gamescope && !inner
}

/// The exit code of the wrapper, which is that of the wrapped program where it
/// has one.
pub fn wrapper_exit_code(code: Option<i32>) -> (r: i32)
    ensures
        r == match code {
            Some(c) => c,
            None => 1,
        },
        r == wrapper_code(code),
{
    match code {
        Some(c) => c,
        None => 1,
    }
}

/// A screen is given a size where the resolution is a width and a height with one
/// `x` between them, and then that one; otherwise it is given none.
pub proof fn law_size_is_that_of_the_resolution(w: Seq<char>, h: Seq<char>, r: Seq<char>)
    requires
        !w.contains('x'),
        !h.contains('x'),
    ensures
        size_args(Some(w + "x"@ + h)) == seq![utf8("-W"@), utf8(w), utf8("-H"@), utf8(h)],
        size_args(None).len() == 0,
        (forall|a: Seq<char>, b: Seq<char>|
            r == #[trigger] (a + "x"@ + b) ==> a.contains('x') || b.contains('x')) ==> size_args(
            Some(r),
        ).len() == 0,
{
    law_resolution_is_width_x_height(w + "x"@ + h, w, h);
    if let Some((a, b)) = resolution_of(r) {
        law_resolution_is_width_x_height(r, a, b);
        assert(r == a + "x"@ + b);
    }
}

/// The words by which Gamescope knows its ways to fit and to filter the picture.
pub proof fn law_words_of_gamescope(s: Scaler, f: Filter)
    ensures
        scaler_args(Some(s)).len() == 2 && scaler_args(Some(s))[0] == utf8("-S"@),
        s == Scaler::Auto ==> scaler_args(Some(s))[1] == utf8("auto"@),
        s == Scaler::Integer ==> scaler_args(Some(s))[1] == utf8("integer"@),
        s == Scaler::Fit ==> scaler_args(Some(s))[1] == utf8("fit"@),
        s == Scaler::Fill ==> scaler_args(Some(s))[1] == utf8("fill"@),
        s == Scaler::Stretch ==> scaler_args(Some(s))[1] == utf8("stretch"@),
        filter_args(Some(f)).len() == 2 && filter_args(Some(f))[0] == utf8("-F"@),
        f == Filter::Linear ==> filter_args(Some(f))[1] == utf8("linear"@),
        f == Filter::Nearest ==> filter_args(Some(f))[1] == utf8("nearest"@),
        f == Filter::Fsr ==> filter_args(Some(f))[1] == utf8("fsr"@),
        f == Filter::Nis ==> filter_args(Some(f))[1] == utf8("nis"@),
        f == Filter::Pixel ==> filter_args(Some(f))[1] == utf8("pixel"@),
        scaler_args(None).len() == 0 && filter_args(None).len() == 0,
{
}

/// Each argument of the profile is handed on or left out by itself, in the order
/// of the profile: left out are `--xwayland-count` and `0`, and nothing else.
pub proof fn law_arguments_are_kept_one_by_one(args: Seq<Seq<char>>, arg: Seq<char>)
    ensures
        kept_args(args.push(arg)) == if arg == "--xwayland-count"@ || arg == "0"@ {
            kept_args(args)
        } else {
            kept_args(args).push(utf8(arg))
        },
        kept_args(seq![]).len() == 0,
{
    assert(args.push(arg).drop_last() =~= args);
}

/// Inside Gamescope the program is started behind `--`, with its own arguments
/// unchanged and last, and before `--` stand the size, the way to fit, the filter
/// and the arguments of the profile.
pub proof fn law_program_follows_its_wrapper(
    g: GraphicsView,
    program: Seq<u8>,
    args: Seq<Seq<char>>,
)
    ensures
        ({
            let all = wrapper_args_of(g, program, args);
            let n = all.len() - args.len();
            let own = size_args(g.resolution) + scaler_args(g.scaler) + filter_args(g.filter)
                + kept_args(g.gamescope_args);
            &&& n == own.len() + 2
            &&& all.take(n - 2) == own
            &&& all[n - 2] == utf8("--"@)
            &&& all[n - 1] == program
            &&& forall|k: int| 0 <= k < args.len() ==> #[trigger] all[n + k] == utf8(args[k])
        }),
{
    let all = wrapper_args_of(g, program, args);
    let n = all.len() - args.len();
    let own = size_args(g.resolution) + scaler_args(g.scaler) + filter_args(g.filter) + kept_args(
        g.gamescope_args,
    );
    assert(all.take(n - 2) =~= own);
}

/// A program is started again inside Gamescope where the profile asks for it, but
/// not by one that runs there already, and the wrapper leaves as the program did,
/// or with 1 where the program left without a code.
pub proof fn law_when_a_run_is_wrapped(gamescope: bool, inner: bool, code: i32)
    ensures
        is_wrapped(gamescope, inner) ==> gamescope && !inner,
        gamescope ==> is_wrapped(gamescope, false),
        wrapper_code(Some(code)) == code,
        wrapper_code(None) == 1,
{
}

}
