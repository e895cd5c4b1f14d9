//! Text: decimal numbers, lines, trimming and searching.

use vstd::prelude::*;
use vstd::string::*;

verus! {

/// The bytes that a text is stored in.
#[verifier::opaque]
pub open spec fn utf8(s: Seq<char>) -> Seq<u8> {
    vstd::utf8::encode_utf8(s)
}

/// The bytes of a text.
pub fn bytes(s: &str) -> (r: Vec<u8>)
    ensures
        r@ == utf8(s@),
{
    reveal(utf8);
    s.as_bytes_vec()
}

/// Different texts are stored in different bytes.
pub proof fn lemma_utf8_injective(a: Seq<char>, b: Seq<char>)
    ensures
        utf8(a) == utf8(b) ==> a == b,
        utf8(a).len() == 0 <==> a.len() == 0,
{
    reveal(utf8);
    vstd::utf8::encode_utf8_decode_utf8(a);
    vstd::utf8::encode_utf8_decode_utf8(b);
}

/// An ASCII character stands in the bytes of a text only where it stands in the text.
pub proof fn lemma_utf8_free_of(s: Seq<char>, c: char)
    requires
        (c as u32) < 0x80,
        forall|k: int| 0 <= k < s.len() ==> s[k] != c,
    ensures
        forall|k: int| 0 <= k < utf8(s).len() ==> utf8(s)[k] != c as u8,
    decreases s.len(),
{
    reveal(utf8);
    if s.len() > 0 {
        let rest = s.drop_first();
        lemma_utf8_free_of(rest, c);
        let u = s[0] as u32;
        vstd::utf8::char_is_scalar(s[0]);
        let head = vstd::utf8::encode_scalar(u);
        if u < 0x80 {
            assert((u & 0x7F) as u8 == u) by (bit_vector)
                requires
                    u < 0x80,
            ;
            assert(head == seq![vstd::utf8::leading_byte_width_1(u)]);
            assert(head[0] as u32 == u);
            assert(s[0] != c);
            vstd::utf8::char_u32_cast(s[0], u);
            vstd::utf8::char_u32_cast(c, c as u32);
            assert(u != c as u32);
        } else {
            lemma_high_bytes(u);
            assert(forall|k: int| 0 <= k < head.len() ==> head[k] >= 0x80);
        }
        assert((c as u8) as u32 == c as u32);
        assert(utf8(s) == head + utf8(rest));
        assert forall|k: int| 0 <= k < utf8(s).len() implies utf8(s)[k] != c as u8 by {
            if k < head.len() {
                assert(utf8(s)[k] == head[k]);
            } else {
                assert(utf8(s)[k] == utf8(rest)[k - head.len()]);
            }
        }
    }
}

proof fn lemma_high_bytes(u: u32)
    by (bit_vector)
    ensures
        (0xC0 | ((u >> 6) & 0x1F) as u8) >= 0x80,
        (0xE0 | ((u >> 12) & 0x0F) as u8) >= 0x80,
        (0xF0 | ((u >> 18) & 0x7) as u8) >= 0x80,
        (0x80 | (u & 0x3F) as u8) >= 0x80,
        (0x80 | ((u >> 6) & 0x3F) as u8) >= 0x80,
        (0x80 | ((u >> 12) & 0x3F) as u8) >= 0x80,
{
}

/// The bytes of an ASCII text are its characters.
pub proof fn lemma_ascii_utf8(s: Seq<char>)
    requires
        vstd::utf8::is_ascii_chars(s),
    ensures
        utf8(s) == Seq::new(s.len(), |k: int| s[k] as u8),
{
    reveal(utf8);
    vstd::utf8::is_ascii_chars_encode_utf8(s);
}

/// The characters of a text.
pub fn chars(s: &str) -> (r: Vec<char>)
    ensures
        r@ == s@,
{
    let mut r: Vec<char> = Vec::new();
    for c in it: s.chars()
        invariant
            it.seq() == s@,
            r@ == s@.take(it.index()),
    {
        r.push(c);
        assert(r@ =~= s@.take(it.index() + 1));
    }
    assert(s@.take(s@.len() as int) =~= s@);
    r
}

/// Whether two texts are the same.
pub fn same_text(a: &str, b: &str) -> (r: bool)
    ensures
        r == (a@ == b@),
{
    let s = chars(a);
    let t = chars(b);
    if s.len() != t.len() {
        return false;
    }
    let mut k: usize = 0;
    while k < s.len()
        invariant
            k <= s@.len() == t@.len(),
            s@ == a@,
            t@ == b@,
            forall|m: int| 0 <= m < k ==> s@[m] == t@[m],
        decreases s@.len() - k,
    {
        if s[k] != t[k] {
            return false;
        }
        k = k + 1;
    }
    assert(s@ =~= t@);
    true
}

pub open spec fn digit(d: nat) -> char {
    (48 + d) as char
}

/// A number in decimal.
pub open spec fn decimal(n: nat) -> Seq<char>
    decreases n,
{
    if n < 10 {
        seq![digit(n)]
    } else {
        decimal(n / 10).push(digit(n % 10))
    }
}

/// A signed number in decimal.
pub open spec fn signed_decimal(n: int) -> Seq<char> {
    if n < 0 {
        "-"@ + decimal((-n) as nat)
    } else {
        decimal(n as nat)
    }
}

fn digit_str(d: u64) -> (r: &'static str)
    requires
        d < 10,
    ensures
        r@ == seq![digit(d as nat)],
{
    proof {
        reveal_strlit("0");
        reveal_strlit("1");
        reveal_strlit("2");
        reveal_strlit("3");
        reveal_strlit("4");
        reveal_strlit("5");
        reveal_strlit("6");
        reveal_strlit("7");
        reveal_strlit("8");
        reveal_strlit("9");
    }
    let r = match d {
        0 => "0",
        1 => "1",
        2 => "2",
        3 => "3",
        4 => "4",
        5 => "5",
        6 => "6",
        7 => "7",
        8 => "8",
        _ => "9",
    };
    assert(r@ =~= seq![digit(d as nat)]);
    r
}

/// Writes a number in decimal.
pub fn decimal_string(n: u64) -> (r: String)
    ensures
        r@ == decimal(n as nat),
    decreases n,
{
    if n < 10 {
        digit_str(n).to_owned()
    } else {
        let mut r = decimal_string(n / 10);
        r.append(digit_str(n % 10));
        assert(r@ =~= decimal((n / 10) as nat).push(digit((n % 10) as nat)));
        r
    }
}

/// Writes a signed number in decimal.
pub fn signed_decimal_string(n: i64) -> (r: String)
    requires
        n > i64::MIN,
    ensures
        r@ == signed_decimal(n as int),
{
    if n < 0 {
        let digits = decimal_string((-n) as u64);
        String::from_str("-").concat(digits.as_str())
    } else {
        decimal_string(n as u64)
    }
}

/// Different numbers are written differently.
pub proof fn law_decimal_injective(a: nat, b: nat)
    ensures
        decimal(a) == decimal(b) ==> a == b,
    decreases a,
{
    if decimal(a) == decimal(b) {
        assert(decimal(a).last() == digit(a % 10));
        assert(decimal(b).last() == digit(b % 10));
        lemma_decimal_len(a);
        lemma_decimal_len(b);
        if a >= 10 && b >= 10 {
            assert(decimal(a).drop_last() =~= decimal(a / 10));
            assert(decimal(b).drop_last() =~= decimal(b / 10));
            law_decimal_injective(a / 10, b / 10);
        }
    }
}

proof fn lemma_decimal_len(n: nat)
    ensures
        decimal(n).len() >= 1,
        n >= 10 ==> decimal(n).len() >= 2,
    decreases n,
{
    if n >= 10 {
        lemma_decimal_len(n / 10);
    }
}


/// Unicode white space.
pub open spec fn is_space(c: char) -> bool {
    let u = c as u32;
    ||| 0x9 <= u <= 0xD
    ||| u == 0x20
    ||| u == 0x85
    ||| u == 0xA0
    ||| u == 0x1680
    ||| 0x2000 <= u <= 0x200A
    ||| u == 0x2028
    ||| u == 0x2029
    ||| u == 0x202F
    ||| u == 0x205F
    ||| u == 0x3000
}

fn check_space(c: char) -> (r: bool)
    ensures
        r == is_space(c),
{
    let u = c as u32;
    (0x9 <= u && u <= 0xD) || u == 0x20 || u == 0x85 || u == 0xA0 || u == 0x1680 || (0x2000 <= u
        && u <= 0x200A) || u == 0x2028 || u == 0x2029 || u == 0x202F || u == 0x205F || u == 0x3000
}

/// A text without the white space at its ends.
pub open spec fn trimmed(s: Seq<char>) -> Seq<char>
    decreases s.len(),
{
    if s.len() > 0 && is_space(s.first()) {
        trimmed(s.drop_first())
    } else if s.len() > 0 && is_space(s.last()) {
        trimmed(s.drop_last())
    } else {
        s
    }
}

/// Finds the range that is left of `s[from..to]` without white space at its ends.
pub fn trim_range(s: &Vec<char>, from: usize, to: usize) -> (r: (usize, usize))
    requires
        from <= to <= s@.len(),
    ensures
        from <= r.0 <= r.1 <= to,
        s@.subrange(r.0 as int, r.1 as int) == trimmed(s@.subrange(from as int, to as int)),
{
    let mut i: usize = from;
    let mut j: usize = to;
    let ghost whole = trimmed(s@.subrange(from as int, to as int));
    while i < j && check_space(s[i])
        invariant
            from <= i <= j <= to <= s@.len(),
            trimmed(s@.subrange(i as int, j as int)) == whole,
        decreases j - i,
    {
        let ghost t = s@.subrange(i as int, j as int);
        assert(t.drop_first() =~= s@.subrange(i + 1, j as int));
        assert(t.first() == s@[i as int]);
        i = i + 1;
    }
    while i < j && check_space(s[j - 1])
        invariant
            from <= i <= j <= to <= s@.len(),
            i < j ==> !is_space(s@[i as int]),
            trimmed(s@.subrange(i as int, j as int)) == whole,
        decreases j - i,
    {
        let ghost t = s@.subrange(i as int, j as int);
        assert(t.drop_last() =~= s@.subrange(i as int, j - 1));
        assert(t.last() == s@[j - 1]);
        assert(t.first() == s@[i as int]);
        j = j - 1;
    }
    proof {
        let t = s@.subrange(i as int, j as int);
        if t.len() > 0 {
            assert(t.first() == s@[i as int]);
            assert(t.last() == s@[j - 1]);
        }
    }
    (i, j)
}

/// Whether `pat` stands in `s` at `i`.
pub open spec fn stands_at(s: Seq<char>, pat: Seq<char>, i: int) -> bool {
    0 <= i && i + pat.len() <= s.len() && s.subrange(i, i + pat.len()) == pat
}

/// The first place at or after `i` at which `pat` stands in `s`.
pub open spec fn find_from(s: Seq<char>, pat: Seq<char>, i: int) -> Option<int>
    decreases s.len() + 1 - i,
{
    if i > s.len() {
        None
    } else if stands_at(s, pat, i) {
        Some(i)
    } else {
        find_from(s, pat, i + 1)
    }
}

/// Whether `pat` stands at `i` in the part of `s` that ends at `to`.
pub fn check_stands_at(s: &Vec<char>, to: usize, pat: &Vec<char>, i: usize) -> (r: bool)
    requires
        i <= to <= s@.len(),
    ensures
        r == stands_at(s@.take(to as int), pat@, i as int),
{
    let ghost t = s@.take(to as int);
    if pat.len() > to - i {
        return false;
    }
    let mut k: usize = 0;
    while k < pat.len()
        invariant
            k <= pat@.len() <= to - i,
            i <= to <= s@.len(),
            t == s@.take(to as int),
            forall|m: int| 0 <= m < k ==> t.subrange(i as int, i + pat@.len())[m] == pat@[m],
        decreases pat@.len() - k,
    {
        if s[i + k] != pat[k] {
            assert(t.subrange(i as int, i + pat@.len())[k as int] == s@[i + k]);
            return false;
        }
        k = k + 1;
    }
    assert(t.subrange(i as int, i + pat@.len()) =~= pat@);
    true
}

/// Finds the first place at or after `from` at which `pat` stands in the part
/// of `s` that ends at `to`.
pub fn find(s: &Vec<char>, to: usize, pat: &Vec<char>, from: usize) -> (r: Option<usize>)
    requires
        from <= to <= s@.len(),
    ensures
        match r {
            Some(i) => find_from(s@.take(to as int), pat@, from as int) == Some(i as int) && from
                <= i && i + pat@.len() <= to,
            None => find_from(s@.take(to as int), pat@, from as int) is None,
        },
{
    let ghost t = s@.take(to as int);
    let mut i: usize = from;
    loop
        invariant
            from <= i <= to <= s@.len(),
            t == s@.take(to as int),
            find_from(t, pat@, from as int) == find_from(t, pat@, i as int),
        decreases to - i,
    {
        if check_stands_at(s, to, pat, i) {
            return Some(i);
        }
        if i == to {
            assert(find_from(t, pat@, i + 1) is None);
            return None;
        }
        i = i + 1;
    }
}

/// Where the next newline at or after `i` stands, or the end of the text.
pub open spec fn newline_at(s: Seq<char>, i: int) -> int
    decreases s.len() - i,
{
    if i >= s.len() {
        s.len() as int
    } else if s[i] == '\n' {
        i
    } else {
        newline_at(s, i + 1)
    }
}

/// The half-open ranges of the lines at or after `i`, line endings left out. A
/// line ends with a newline, before which one carriage return may stand, or
/// with the text.
pub open spec fn line_spans(s: Seq<char>, i: int) -> Seq<(int, int)>
    decreases s.len() + 1 - i,
{
    if i >= s.len() {
        seq![]
    } else {
        proof {
            lemma_newline_at(s, i);
        }
        let n = newline_at(s, i);
        let e = if i < n < s.len() && s[n - 1] == '\r' {
            n - 1
        } else {
            n
        };
        seq![(i, e)] + line_spans(s, n + 1)
    }
}

/// The lines of a text.
pub open spec fn lines(s: Seq<char>) -> Seq<Seq<char>> {
    let t = line_spans(s, 0);
    Seq::new(t.len(), |k: int| s.subrange(t[k].0, t[k].1))
}

pub proof fn lemma_newline_at(s: Seq<char>, i: int)
    requires
        i <= s.len(),
    ensures
        i <= newline_at(s, i) <= s.len(),
    decreases s.len() - i,
{
    if i < s.len() && s[i] != '\n' {
        lemma_newline_at(s, i + 1);
    }
}

proof fn lemma_line_spans(s: Seq<char>, i: int)
    requires
        0 <= i,
    ensures
        forall|k: int|
            0 <= k < line_spans(s, i).len() ==> 0 <= (#[trigger] line_spans(s, i)[k]).0
                <= line_spans(s, i)[k].1 <= s.len(),
    decreases s.len() + 1 - i,
{
    if i < s.len() {
        lemma_newline_at(s, i);
        let rest = line_spans(s, newline_at(s, i) + 1);
        lemma_line_spans(s, newline_at(s, i) + 1);
        assert forall|k: int| 0 <= k < line_spans(s, i).len() implies 0 <= (
        #[trigger] line_spans(s, i)[k]).0 <= line_spans(s, i)[k].1 <= s.len() by {
            if k > 0 {
                assert(line_spans(s, i)[k] == rest[k - 1]);
            }
        }
    }
}

/// Finds the ranges of the lines of a text.
pub fn find_lines(s: &Vec<char>) -> (r: Vec<(usize, usize)>)
    ensures
        crate::path::as_spans(r@) == line_spans(s@, 0),
        forall|k: int| 0 <= k < r@.len() ==> (#[trigger] r@[k]).0 <= r@[k].1 <= s@.len(),
{
    let mut r: Vec<(usize, usize)> = Vec::new();
    let mut i: usize = 0;
    assert(crate::path::as_spans(r@) + line_spans(s@, 0) =~= line_spans(s@, 0));
    while i < s.len()
        invariant
            i <= s@.len(),
            crate::path::as_spans(r@) + line_spans(s@, i as int) == line_spans(s@, 0),
        decreases s@.len() - i,
    {
        let mut n: usize = i;
        while n < s.len() && s[n] != '\n'
            invariant
                i <= n <= s@.len(),
                newline_at(s@, i as int) == newline_at(s@, n as int),
            decreases s@.len() - n,
        {
            n = n + 1;
        }
        let e = if i < n && n < s.len() && s[n - 1] == '\r' {
            n - 1
        } else {
            n
        };
        let ghost before = crate::path::as_spans(r@);
        r.push((i, e));
        proof {
            assert(crate::path::as_spans(r@) =~= before.push((i as int, e as int)));
            assert(crate::path::as_spans(r@) + line_spans(s@, n + 1) =~= before + (seq![
                (i as int, e as int),
            ] + line_spans(s@, n + 1)));
        }
        if n == s.len() {
            assert(line_spans(s@, n + 1) =~= line_spans(s@, n as int));
            i = n;
        } else {
            i = n + 1;
        }
    }
    proof {
        assert(crate::path::as_spans(r@) =~= line_spans(s@, 0));
        lemma_line_spans(s@, 0);
        assert forall|k: int| 0 <= k < r@.len() implies (#[trigger] r@[k]).0 <= r@[k].1
            <= s@.len() by {
            assert(crate::path::as_spans(r@)[k] == line_spans(s@, 0)[k]);
        }
    }
    r
}


/// A text without the copies of `c` at its end.
pub open spec fn without_trailing(s: Seq<char>, c: char) -> Seq<char>
    decreases s.len(),
{
    if s.len() > 0 && s.last() == c {
        without_trailing(s.drop_last(), c)
    } else {
        s
    }
}

/// Finds the end that is left of `s[from..to]` without the copies of `c` at its end.
pub fn trim_trailing(s: &Vec<char>, from: usize, to: usize, c: char) -> (r: usize)
    requires
        from <= to <= s@.len(),
    ensures
        from <= r <= to,
        s@.subrange(from as int, r as int) == without_trailing(
            s@.subrange(from as int, to as int),
            c,
        ),
{
    let mut j: usize = to;
    let ghost whole = without_trailing(s@.subrange(from as int, to as int), c);
    while j > from && s[j - 1] == c
        invariant
            from <= j <= to <= s@.len(),
            without_trailing(s@.subrange(from as int, j as int), c) == whole,
        decreases j,
    {
        let ghost t = s@.subrange(from as int, j as int);
        assert(t.drop_last() =~= s@.subrange(from as int, j - 1));
        assert(t.last() == s@[j - 1]);
        j = j - 1;
    }
    proof {
        let t = s@.subrange(from as int, j as int);
        if t.len() > 0 {
            assert(t.last() == s@[j - 1]);
        }
    }
    j
}

/// A text without the copies of `pat` that open it.
pub open spec fn without_leading(s: Seq<char>, pat: Seq<char>) -> Seq<char>
    decreases s.len(),
{
    if pat.len() > 0 && stands_at(s, pat, 0) {
        without_leading(s.skip(pat.len() as int), pat)
    } else {
        s
    }
}

/// Finds the start that is left of `s[from..to]` without the copies of `pat` that open it.
pub fn trim_leading(s: &Vec<char>, from: usize, to: usize, pat: &Vec<char>) -> (r: usize)
    requires
        from <= to <= s@.len(),
        pat@.len() > 0,
    ensures
        from <= r <= to,
        s@.subrange(r as int, to as int) == without_leading(
            s@.subrange(from as int, to as int),
            pat@,
        ),
{
    let mut i: usize = from;
    let ghost whole = without_leading(s@.subrange(from as int, to as int), pat@);
    loop
        invariant
            from <= i <= to <= s@.len(),
            pat@.len() > 0,
            without_leading(s@.subrange(i as int, to as int), pat@) == whole,
        ensures
            from <= i <= to,
            s@.subrange(i as int, to as int) == whole,
        decreases to - i,
    {
        let ghost t = s@.subrange(i as int, to as int);
        proof {
            let u = s@.take(to as int);
            if i + pat@.len() <= to {
                assert(u.subrange(i as int, i + pat@.len()) =~= t.subrange(
                    0,
                    pat@.len() as int,
                ));
            }
            assert(stands_at(u, pat@, i as int) == stands_at(t, pat@, 0));
        }
        if !check_stands_at(s, to, pat, i) {
            break;
        }
        assert(t.skip(pat@.len() as int) =~= s@.subrange(i + pat@.len(), to as int));
        i = i + pat.len();
    }
    i
}

/// Copies the characters from `i` to `e`.
pub fn copy_chars(s: &Vec<char>, i: usize, e: usize) -> (r: Vec<char>)
    requires
        i <= e <= s@.len(),
    ensures
        r@ == s@.subrange(i as int, e as int),
{
    vstd::slice::slice_to_vec(vstd::slice::slice_subrange(s.as_slice(), i, e))
}

/// Byte strings by what they hold.
#[verifier::opaque]
pub open spec fn all_bytes(v: Seq<Vec<u8>>) -> Seq<Seq<u8>> {
    Seq::new(v.len(), |k: int| v[k]@)
}

/// A list of byte strings with nothing in it.
pub fn no_bytes() -> (r: Vec<Vec<u8>>)
    ensures
        all_bytes(r@) == Seq::<Seq<u8>>::empty(),
        r@.len() == 0,
{
    reveal(all_bytes);
    let r: Vec<Vec<u8>> = Vec::new();
    assert(all_bytes(r@) =~= Seq::<Seq<u8>>::empty());
    r
}

/// Puts a byte string at the end of a list.
pub fn push_bytes(list: &mut Vec<Vec<u8>>, item: Vec<u8>)
    ensures
        all_bytes(final(list)@) == all_bytes(old(list)@).push(item@),
{
    reveal(all_bytes);
    let ghost added = item@;
    list.push(item);
    assert(all_bytes(list@) =~= all_bytes(old(list)@).push(added));
}

/// The number that digits stand for, the highest first.
pub open spec fn number(s: Seq<char>) -> nat
    decreases s.len(),
{
    if s.len() == 0 {
        0
    } else {
        number(s.drop_last()) * 10 + (s.last() as nat - '0' as nat) as nat
    }
}

/// A number in decimal is digits that stand for it, without a needless zero in
/// front.
pub proof fn law_decimal_is_read_back(n: nat)
    ensures
        decimal(n).len() > 0,
        forall|k: int| 0 <= k < decimal(n).len() ==> '0' <= #[trigger] decimal(n)[k] <= '9',
        decimal(n).len() > 1 ==> decimal(n)[0] != '0',
        number(decimal(n)) == n,
    decreases n,
{
    let d = decimal(n);
    if n < 10 {
        assert(d.drop_last() =~= seq![]);
        assert(number(d.drop_last()) == 0);
        assert(d.last() == digit(n));
    } else {
        law_decimal_is_read_back(n / 10);
        assert(d.drop_last() =~= decimal(n / 10));
        assert(d.last() == digit(n % 10));
        assert(d[0] == decimal(n / 10)[0]);
        if n / 10 < 10 {
            assert(decimal(n / 10) =~= seq![digit(n / 10)]);
            assert(digit(n / 10) != '0');
        } else {
            assert(decimal(n / 10).len() == decimal(n / 10 / 10).len() + 1);
            law_decimal_is_read_back(n / 10 / 10);
        }
    }
}

/// A number with a sign is its digits behind a minus where it is negative, and
/// nothing but its digits where it is not.
pub proof fn law_signed_decimal_is_read_back(n: int)
    ensures
        n >= 0 ==> signed_decimal(n) == decimal(n as nat) && number(signed_decimal(n)) == n,
        n < 0 ==> signed_decimal(n).len() > 0 && signed_decimal(n)[0] == '-' && number(
            signed_decimal(n).drop_first(),
        ) == -n,
{
    reveal_strlit("-");
    if n < 0 {
        law_decimal_is_read_back((-n) as nat);
        assert(signed_decimal(n).drop_first() =~= decimal((-n) as nat));
    } else {
        law_decimal_is_read_back(n as nat);
    }
}

/// Which characters are white space.
pub proof fn law_white_space(c: char)
    ensures
        is_space(c) <==> {
            ||| c == '\t' || c == '\n' || c == '\r' || c == ' '
            ||| c == '\u{b}' || c == '\u{c}' || c == '\u{85}' || c == '\u{a0}' || c == '\u{1680}'
            ||| '\u{2000}' <= c <= '\u{200a}'
            ||| c == '\u{2028}' || c == '\u{2029}' || c == '\u{202f}' || c == '\u{205f}' || c
                == '\u{3000}'
        },
{
}

/// White space at either end makes no difference to what is left when it is
/// trimmed off, and a text without any at its ends is left as it is.
pub proof fn law_trimming_takes_only_space(s: Seq<char>, c: char)
    requires
        is_space(c),
    ensures
        trimmed(seq![c] + s) == trimmed(s),
        trimmed(s.push(c)) == trimmed(s),
        s.len() == 0 || (!is_space(s.first()) && !is_space(s.last())) ==> trimmed(s) == s,
    decreases s.len(),
{
    assert((seq![c] + s).drop_first() =~= s);
    assert((seq![c] + s).first() == c);
    assert(s.push(c).drop_last() =~= s);
    assert(s.push(c).last() == c);
    if s.len() > 0 && is_space(s.first()) {
        assert(s.push(c).first() == s.first());
        assert(s.push(c).drop_first() =~= s.drop_first().push(c));
        law_trimming_takes_only_space(s.drop_first(), c);
    } else if s.len() == 0 {
        assert(s.push(c).drop_first() =~= s);
        assert(trimmed(s.push(c)) == trimmed(s));
    } else {
        assert(s.push(c).first() == s.first());
        assert(trimmed(s.push(c)) == trimmed(s.push(c).drop_last()));
    }
}

proof fn lemma_newline_is_first(s: Seq<char>, i: int)
    requires
        0 <= i <= s.len(),
    ensures
        i <= newline_at(s, i) <= s.len(),
        forall|k: int| i <= k < newline_at(s, i) ==> s[k] != '\n',
        newline_at(s, i) < s.len() ==> s[newline_at(s, i)] == '\n',
    decreases s.len() - i,
{
    if i < s.len() && s[i] != '\n' {
        lemma_newline_is_first(s, i + 1);
    }
}

proof fn lemma_spans_behind(a: Seq<char>, b: Seq<char>, i: int)
    requires
        0 <= i,
    ensures
        line_spans(a + b, a.len() + i) == Seq::new(
            line_spans(b, i).len(),
            |k: int| (line_spans(b, i)[k].0 + a.len(), line_spans(b, i)[k].1 + a.len()),
        ),
    decreases b.len() + 1 - i,
{
    let s = a + b;
    let n = a.len() as int;
    let shifted = Seq::new(
        line_spans(b, i).len(),
        |k: int| (line_spans(b, i)[k].0 + n, line_spans(b, i)[k].1 + n),
    );
    if i >= b.len() {
        assert(line_spans(s, n + i) =~= shifted);
    } else {
        lemma_newline_is_first(b, i);
        lemma_newline_is_first(s, n + i);
        let m = newline_at(b, i);
        let w = newline_at(s, n + i);
        if w < n + m {
            assert(s[w] == b[w - n]);
        }
        if n + m < w {
            assert(s[n + m] == b[m]);
        }
        assert(w == n + m);
        lemma_spans_behind(a, b, m + 1);
        if i < m {
            assert(s[n + m - 1] == b[m - 1]);
        }
        assert(line_spans(s, n + i) =~= shifted);
    }
}

/// Lines end at newlines: what stands before the first one is the first line,
/// but for a carriage return at its end, and what stands behind it gives the
/// other lines. A text without a newline is one line, and an empty one has none.
pub proof fn law_lines_end_at_newlines(a: Seq<char>, b: Seq<char>)
    requires
        !a.contains('\n'),
    ensures
        lines(a) == if a.len() > 0 {
            seq![a]
        } else {
            seq![]
        },
        lines(a + "\n"@ + b) == seq![
            if a.len() > 0 && a.last() == '\r' {
                a.drop_last()
            } else {
                a
            },
        ] + lines(b),
{
    reveal_strlit("\n");
    lemma_newline_is_first(a, 0);
    if newline_at(a, 0) < a.len() {
        assert(a.contains(a[newline_at(a, 0)]));
    }
    if a.len() > 0 {
        assert(line_spans(a, a.len() as int + 1) =~= seq![]);
        assert(line_spans(a, 0) =~= seq![(0int, a.len() as int)]);
        assert(a.subrange(0, a.len() as int) =~= a);
    }
    assert(lines(a) =~= if a.len() > 0 {
        seq![a]
    } else {
        seq![]
    });
    let head = a + "\n"@;
    let s = head + b;
    let n = a.len() as int;
    lemma_newline_is_first(s, 0);
    let w = newline_at(s, 0);
    assert(s[n] == '\n');
    if w < n {
        assert(a.contains(a[w]));
        assert(s[w] == a[w]);
    }
    assert(w == n);
    lemma_spans_behind(head, b, 0);
    assert(n > 0 ==> s[n - 1] == a.last());
    let e = if n > 0 && a.last() == '\r' {
        n - 1
    } else {
        n
    };
    let rest = line_spans(s, n + 1);
    assert(line_spans(s, 0) =~= seq![(0int, e)] + rest);
    assert(s.subrange(0, e) =~= a.take(e));
    assert(a.take(n) =~= a);
    assert(n > 0 ==> a.take(n - 1) =~= a.drop_last());
    let all = lines(s);
    assert(all.len() == 1 + lines(b).len());
    lemma_spans_within(b, 0);
    assert forall|k: int| 0 <= k < lines(b).len() implies all[k + 1] == lines(b)[k] by {
        let t = line_spans(b, 0)[k];
        assert(line_spans(s, 0)[k + 1] == (t.0 + n + 1, t.1 + n + 1));
        assert(s.subrange(t.0 + n + 1, t.1 + n + 1) =~= b.subrange(t.0, t.1));
    }
    assert(all =~= seq![
        if n > 0 && a.last() == '\r' {
            a.drop_last()
        } else {
            a
        },
    ] + lines(b));
}

proof fn lemma_spans_within(s: Seq<char>, i: int)
    requires
        0 <= i,
    ensures
        forall|k: int|
            0 <= k < line_spans(s, i).len() ==> 0 <= (#[trigger] line_spans(s, i)[k]).0
                <= line_spans(s, i)[k].1 <= s.len(),
    decreases s.len() + 1 - i,
{
    if i < s.len() {
        lemma_newline_is_first(s, i);
        let n = newline_at(s, i);
        let rest = line_spans(s, n + 1);
        lemma_spans_within(s, n + 1);
        let e = if i < n < s.len() && s[n - 1] == '\r' {
            n - 1
        } else {
            n
        };
        assert(line_spans(s, i) =~= seq![(i, e)] + rest);
        assert forall|k: int| 0 <= k < line_spans(s, i).len() implies 0 <= (
        #[trigger] line_spans(s, i)[k]).0 <= line_spans(s, i)[k].1 <= s.len() by {
            if k > 0 {
                assert(line_spans(s, i)[k] == rest[k - 1]);
            }
        }
    }
}

/// A pattern is found where it stands first, and nowhere where it does not stand.
pub proof fn law_pattern_is_found_first(s: Seq<char>, pat: Seq<char>, i: int)
    requires
        0 <= i,
    ensures
        match find_from(s, pat, i) {
            Some(k) => {
                &&& i <= k && k + pat.len() <= s.len() && s.subrange(k, k + pat.len()) == pat
                &&& forall|j: int|
                    i <= j < k ==> #[trigger] s.subrange(j, j + pat.len()) != pat || j + pat.len()
                        > s.len()
            },
            None => forall|j: int|
                i <= j && j + pat.len() <= s.len() ==> #[trigger] s.subrange(j, j + pat.len())
                    != pat,
        },
    decreases s.len() + 1 - i,
{
    if i <= s.len() && !stands_at(s, pat, i) {
        law_pattern_is_found_first(s, pat, i + 1);
    }
}

/// Taking the copies of a pattern off the front leaves a text that does not open
/// with it, and takes nothing else.
pub proof fn law_leading_copies_are_taken(s: Seq<char>, pat: Seq<char>)
    requires
        pat.len() > 0,
    ensures
        !stands_at(without_leading(s, pat), pat, 0),
        without_leading(pat + s, pat) == without_leading(s, pat),
        !stands_at(s, pat, 0) ==> without_leading(s, pat) == s,
    decreases s.len(),
{
    assert((pat + s).subrange(0, pat.len() as int) =~= pat);
    assert((pat + s).skip(pat.len() as int) =~= s);
    if stands_at(s, pat, 0) {
        law_leading_copies_are_taken(s.skip(pat.len() as int), pat);
    }
}

/// Taking the copies of a character off the end leaves a text that does not end
/// with it, and takes nothing else.
pub proof fn law_trailing_copies_are_taken(s: Seq<char>, c: char)
    ensures
        without_trailing(s, c).len() > 0 ==> without_trailing(s, c).last() != c,
        without_trailing(s.push(c), c) == without_trailing(s, c),
        s.len() == 0 || s.last() != c ==> without_trailing(s, c) == s,
    decreases s.len(),
{
    assert(s.push(c).drop_last() =~= s);
    if s.len() > 0 && s.last() == c {
        law_trailing_copies_are_taken(s.drop_last(), c);
    }
}

}
