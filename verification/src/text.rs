//! Character-level text handling shared by the parsers: line splitting, trimming,
//! prefix tests, ASCII case folding and decimal numbers.
//!
//! Every parser in the crate works on the `Seq<char>` view of its input. The spec
//! functions here say what `str::lines`, `str::trim`, `str::strip_prefix`,
//! `str::contains`, `to_ascii_lowercase` and `u32::from_str` do, and the exec
//! functions compute exactly that.
use vstd::prelude::*;

verus! {

// ---------------------------------------------------------------------------
// Building strings
// ---------------------------------------------------------------------------

/// `String::push` appends one character to the end of the string.
pub assume_specification[ String::push ](string: &mut String, ch: char)
    ensures
        final(string)@ == old(string)@.push(ch),
;

/// `a` followed by `b`, as a new string.
pub(crate) fn concat(a: &str, b: &str) -> (s: String)
    ensures
        s@ == a@ + b@,
{
    let mut s = String::from_str(a);
    push_str(&mut s, b);
    s
}

/// Appends a copy of `a` to an argument list.
pub(crate) fn push_arg(args: &mut Vec<String>, a: &str)
    ensures
        final(args).deep_view() == old(args).deep_view().push(a@),
{
    let ghost before = args.deep_view();
    args.push(String::from_str(a));
    assert(args.deep_view() =~= before.push(a@));
}

/// Appends `a` to an argument list.
pub(crate) fn push_owned_arg(args: &mut Vec<String>, a: String)
    ensures
        final(args).deep_view() == old(args).deep_view().push(a@),
{
    let ghost before = args.deep_view();
    let ghost av = a@;
    args.push(a);
    assert(args.deep_view() =~= before.push(av));
}

/// The characters of `s`, in order.
pub fn chars_of(s: &str) -> (v: Vec<char>)
    ensures
        v@ == s@,
{
    let mut v: Vec<char> = Vec::new();
    for c in it: s.chars()
        invariant
            v@ == it.seq().take(it.index() as int),
            it.seq() == s@,
    {
        v.push(c);
    }
    v
}

/// A `String` holding `v[lo..hi]`.
pub fn string_of_range(v: &Vec<char>, lo: usize, hi: usize) -> (s: String)
    requires
        lo <= hi <= v@.len(),
    ensures
        s@ == v@.subrange(lo as int, hi as int),
{
    let mut s = String::new();
    let mut i = lo;
    while i < hi
        invariant
            lo <= i <= hi <= v@.len(),
            s@ == v@.subrange(lo as int, i as int),
        decreases hi - i,
    {
        s.push(v[i]);
        i = i + 1;
        assert(s@ =~= v@.subrange(lo as int, i as int));
    }
    s
}

/// A `String` holding exactly the characters of `v`.
pub fn string_of(v: &Vec<char>) -> (s: String)
    ensures
        s@ == v@,
{
    let s = string_of_range(v, 0, v.len());
    assert(v@.subrange(0, v@.len() as int) =~= v@);
    s
}

/// Append the characters of `v` to `s`.
pub fn push_chars(s: &mut String, v: &Vec<char>)
    ensures
        final(s)@ == old(s)@ + v@,
{
    let mut i: usize = 0;
    while i < v.len()
        invariant
            i <= v@.len(),
            s@ == old(s)@ + v@.take(i as int),
        decreases v@.len() - i,
    {
        s.push(v[i]);
        i = i + 1;
        assert(s@ =~= old(s)@ + v@.take(i as int));
    }
    assert(v@.take(v@.len() as int) =~= v@);
}

/// Append the characters of `t` to `s`.
pub fn push_str(s: &mut String, t: &str)
    ensures
        final(s)@ == old(s)@ + t@,
{
    let v = chars_of(t);
    push_chars(s, &v);
}

/// A copy of `v[lo..hi]`.
pub fn copy_range(v: &Vec<char>, lo: usize, hi: usize) -> (r: Vec<char>)
    requires
        lo <= hi <= v@.len(),
    ensures
        r@ == v@.subrange(lo as int, hi as int),
{
    let mut r: Vec<char> = Vec::new();
    let mut i = lo;
    while i < hi
        invariant
            lo <= i <= hi <= v@.len(),
            r@ == v@.subrange(lo as int, i as int),
        decreases hi - i,
    {
        r.push(v[i]);
        i = i + 1;
        assert(r@ =~= v@.subrange(lo as int, i as int));
    }
    r
}

// ---------------------------------------------------------------------------
// Whitespace and trimming
// ---------------------------------------------------------------------------

/// Unicode `White_Space`, the set `char::is_whitespace` tests for.
pub open spec fn is_ws(c: char) -> bool {
    let u = c as u32;
    ||| 0x09 <= u <= 0x0D
    ||| u == 0x20
    ||| u == 0x85
    ||| u == 0xA0
    ||| u == 0x1680
    ||| 0x2000 <= u <= 0x200A
    ||| u == 0x2028
    ||| u == 0x2029
    ||| u == 0x202F
    ||| u == 0x205F
    ||| u == 0x3000
}

/// Whether `c` is whitespace (`char::is_whitespace`).
pub fn is_ws_char(c: char) -> (b: bool)
    ensures
        b == is_ws(c),
{
    let u = c as u32;
    (0x09 <= u && u <= 0x0D) || u == 0x20 || u == 0x85 || u == 0xA0 || u == 0x1680 || (0x2000
        <= u && u <= 0x200A) || u == 0x2028 || u == 0x2029 || u == 0x202F || u == 0x205F || u
        == 0x3000
}

/// `str::trim_start`: leading whitespace removed.
pub open spec fn trim_start(s: Seq<char>) -> Seq<char>
    decreases s.len(),
{
    if s.len() > 0 && is_ws(s[0]) {
        trim_start(s.drop_first())
    } else {
        s
    }
}

/// `str::trim_end`: trailing whitespace removed.
pub open spec fn trim_end(s: Seq<char>) -> Seq<char>
    decreases s.len(),
{
    if s.len() > 0 && is_ws(s.last()) {
        trim_end(s.drop_last())
    } else {
        s
    }
}

/// `str::trim`: whitespace removed from both ends.
pub open spec fn trim(s: Seq<char>) -> Seq<char> {
    trim_end(trim_start(s))
}

/// Index of the first non-whitespace character of `v[lo..]`.
fn skip_ws_from(v: &Vec<char>, lo: usize) -> (k: usize)
    requires
        lo <= v@.len(),
    ensures
        lo <= k <= v@.len(),
        trim_start(v@.skip(lo as int)) == trim_start(v@.skip(k as int)),
        k < v@.len() ==> !is_ws(v@[k as int]),
{
    let mut k = lo;
    while k < v.len() && is_ws_char(v[k])
        invariant
            lo <= k <= v@.len(),
            trim_start(v@.skip(lo as int)) == trim_start(v@.skip(k as int)),
        decreases v@.len() - k,
    {
        assert(v@.skip(k as int).drop_first() =~= v@.skip(k + 1));
        k = k + 1;
    }
    k
}

/// `trim_start(v[lo..])` as a copy.
pub fn trim_start_vec(v: &Vec<char>) -> (r: Vec<char>)
    ensures
        r@ == trim_start(v@),
{
    let k = skip_ws_from(v, 0);
    assert(v@.skip(0) =~= v@);
    if k == v.len() {
        assert(v@.skip(k as int) =~= Seq::<char>::empty());
    }
    copy_range(v, k, v.len())
}

/// `trim(v)` as a copy.
pub fn trim_vec(v: &Vec<char>) -> (r: Vec<char>)
    ensures
        r@ == trim(v@),
{
    let k = skip_ws_from(v, 0);
    assert(v@.skip(0) =~= v@);
    if k == v.len() {
        assert(v@.skip(k as int) =~= Seq::<char>::empty());
        return Vec::new();
    }
    let ghost ts = v@.skip(k as int);
    assert(trim_start(v@) == ts);
    let mut j = v.len();
    assert(ts.subrange(0, (j - k) as int) =~= ts);
    while j > k && is_ws_char(v[j - 1])
        invariant
            k <= j <= v@.len(),
            ts == v@.skip(k as int),
            trim_end(ts) == trim_end(v@.subrange(k as int, j as int)),
        decreases j,
    {
        assert(v@.subrange(k as int, j as int).drop_last() =~= v@.subrange(k as int, j - 1));
        j = j - 1;
    }
    if j == k {
        assert(v@.subrange(k as int, j as int) =~= Seq::<char>::empty());
    }
    copy_range(v, k, j)
}

// ---------------------------------------------------------------------------
// Lines
// ---------------------------------------------------------------------------

/// Index of the first `'\n'` at or after `i`, or `s.len()` when there is none.
pub open spec fn line_end(s: Seq<char>, i: int) -> int
    decreases s.len() - i,
{
    if i >= s.len() {
        s.len() as int
    } else if s[i] == '\n' {
        i
    } else {
        line_end(s, i + 1)
    }
}

/// The lines of `s[i..]` as `str::lines` yields them: split at `'\n'`, a `'\r'`
/// right before a `'\n'` dropped, and no empty line after a final `'\n'`.
pub open spec fn lines_from(s: Seq<char>, i: int) -> Seq<Seq<char>>
    decreases s.len() - i,
    via lines_from_decreases
{
    if i < 0 || i >= s.len() {
        Seq::empty()
    } else {
        let e = line_end(s, i);
        let raw = s.subrange(i, e);
        let line = if e < s.len() && raw.len() > 0 && raw.last() == '\r' {
            raw.drop_last()
        } else {
            raw
        };
        seq![line] + if e < s.len() {
            lines_from(s, e + 1)
        } else {
            Seq::empty()
        }
    }
}

#[via_fn]
proof fn lines_from_decreases(s: Seq<char>, i: int) {
    if !(i < 0 || i >= s.len()) {
        lemma_line_end_bounds(s, i);
    }
}

/// `str::lines`.
pub open spec fn lines(s: Seq<char>) -> Seq<Seq<char>> {
    lines_from(s, 0)
}

/// `line_end` finds the first `'\n'` at or after `i`, or the end.
pub proof fn lemma_line_end_bounds(s: Seq<char>, i: int)
    requires
        0 <= i <= s.len(),
    ensures
        i <= line_end(s, i) <= s.len(),
        line_end(s, i) < s.len() ==> s[line_end(s, i)] == '\n',
        forall|j: int| i <= j < line_end(s, i) ==> s[j] != '\n',
    decreases s.len() - i,
{
    if i < s.len() && s[i] != '\n' {
        lemma_line_end_bounds(s, i + 1);
    }
}

/// A vector of characters is its own deep view.
pub proof fn lemma_char_vec_deep_view(v: &Vec<char>)
    ensures
        v.deep_view() == v@,
{
    assert(v.deep_view() =~= v@);
}

/// The lines of `v`, each a copy.
pub fn lines_of(v: &Vec<char>) -> (r: Vec<Vec<char>>)
    ensures
        r.deep_view() == lines(v@),
{
    let mut out: Vec<Vec<char>> = Vec::new();
    let mut i: usize = 0;
    while i < v.len()
        invariant
            i <= v@.len(),
            lines(v@) == out.deep_view() + lines_from(v@, i as int),
        decreases v@.len() - i,
    {
        let mut e = i;
        while e < v.len() && v[e] != '\n'
            invariant
                i <= e <= v@.len(),
                line_end(v@, i as int) == line_end(v@, e as int),
            decreases v@.len() - e,
        {
            e = e + 1;
        }
        let stop = if e < v.len() && e > i && v[e - 1] == '\r' {
            e - 1
        } else {
            e
        };
        let line = copy_range(v, i, stop);
        let ghost before = out.deep_view();
        proof {
            lemma_char_vec_deep_view(&line);
        }
        out.push(line);
        assert(out.deep_view() =~= before.push(line@));
        let ghost raw = v@.subrange(i as int, e as int);
        if stop < e {
            assert(raw.drop_last() =~= line@);
        } else {
            assert(raw =~= line@);
        }
        let next = if e < v.len() {
            e + 1
        } else {
            e
        };
        assert(lines_from(v@, i as int) == seq![line@] + lines_from(v@, next as int));
        assert(out.deep_view() + lines_from(v@, next as int) =~= before + (seq![line@]
            + lines_from(v@, next as int)));
        i = next;
    }
    assert(out.deep_view() + lines_from(v@, i as int) =~= out.deep_view());
    out
}

// ---------------------------------------------------------------------------
// Prefixes, substrings, equality
// ---------------------------------------------------------------------------

/// `s.starts_with(p)`.
pub open spec fn has_prefix(s: Seq<char>, p: Seq<char>) -> bool {
    p.len() <= s.len() && s.take(p.len() as int) == p
}

/// `s.contains(n)` for a string needle.
pub open spec fn contains(s: Seq<char>, n: Seq<char>) -> bool {
    exists|i: int| 0 <= i <= s.len() - n.len() && #[trigger] s.subrange(i, i + n.len()) == n
}

/// Whether `p` occurs in `v` at position `at`.
pub fn occurs_at(v: &Vec<char>, p: &Vec<char>, at: usize) -> (b: bool)
    requires
        at <= v@.len(),
    ensures
        b == (p@.len() <= v@.len() - at && v@.subrange(at as int, at + p@.len()) == p@),
{
    if p.len() > v.len() - at {
        return false;
    }
    let n = v.len();
    let mut j: usize = 0;
    while j < p.len()
        invariant
            n == v@.len(),
            at <= v@.len(),
            p@.len() <= v@.len() - at,
            j <= p@.len(),
            forall|k: int| 0 <= k < j ==> v@[at + k] == p@[k],
        decreases p@.len() - j,
    {
        if v[at + j] != p[j] {
            assert(v@.subrange(at as int, at + p@.len())[j as int] != p@[j as int]);
            return false;
        }
        j = j + 1;
    }
    assert(v@.subrange(at as int, at + p@.len()) =~= p@);
    true
}

/// `v.starts_with(p)`.
pub fn starts_with(v: &Vec<char>, p: &Vec<char>) -> (b: bool)
    ensures
        b == has_prefix(v@, p@),
{
    let b = occurs_at(v, p, 0);
    assert(b ==> v@.subrange(0, p@.len() as int) =~= v@.take(p@.len() as int));
    assert(has_prefix(v@, p@) ==> v@.subrange(0, p@.len() as int) =~= v@.take(p@.len() as int));
    b
}

/// `v.contains(p)`.
pub fn contains_vec(v: &Vec<char>, p: &Vec<char>) -> (b: bool)
    ensures
        b == contains(v@, p@),
{
    if p.len() > v.len() {
        return false;
    }
    let last = v.len() - p.len();
    let mut i: usize = 0;
    loop
        invariant
            p@.len() <= v@.len(),
            last == v@.len() - p@.len(),
            i <= last,
            forall|k: int| 0 <= k < i ==> #[trigger] v@.subrange(k, k + p@.len()) != p@,
        decreases last - i,
    {
        if occurs_at(v, p, i) {
            return true;
        }
        if i == last {
            return false;
        }
        i = i + 1;
    }
}

/// `v.contains(lit)` for a string literal or slice.
pub fn contains_str(v: &Vec<char>, lit: &str) -> (b: bool)
    ensures
        b == contains(v@, lit@),
{
    let p = chars_of(lit);
    contains_vec(v, &p)
}

/// `v == lit`.
pub fn eq_str(v: &Vec<char>, lit: &str) -> (b: bool)
    ensures
        b == (v@ == lit@),
{
    let p = chars_of(lit);
    eq_vec(v, &p)
}

/// `a == b` on character vectors.
pub fn eq_vec(a: &Vec<char>, b: &Vec<char>) -> (r: bool)
    ensures
        r == (a@ == b@),
{
    if a.len() != b.len() {
        return false;
    }
    let r = occurs_at(a, b, 0);
    assert(a@.subrange(0, b@.len() as int) =~= a@);
    r
}

/// If `lit` is a prefix of `v`, the rest of `v` after it.
pub open spec fn strip_prefix(s: Seq<char>, p: Seq<char>) -> Option<Seq<char>> {
    if has_prefix(s, p) {
        Some(s.skip(p.len() as int))
    } else {
        None
    }
}

/// `v.strip_prefix(lit)`, copying the remainder.
pub fn strip_prefix_str(v: &Vec<char>, lit: &str) -> (r: Option<Vec<char>>)
    ensures
        r.is_some() == strip_prefix(v@, lit@).is_some(),
        r.is_some() ==> r.unwrap()@ == strip_prefix(v@, lit@).unwrap(),
{
    let p = chars_of(lit);
    if starts_with(v, &p) {
        let rest = copy_range(v, p.len(), v.len());
        assert(rest@ =~= v@.skip(p@.len() as int));
        Some(rest)
    } else {
        None
    }
}

// ---------------------------------------------------------------------------
// ASCII case
// ---------------------------------------------------------------------------

/// `char::to_ascii_lowercase`.
pub open spec fn lower(c: char) -> char {
    if 'A' <= c <= 'Z' {
        ((c as u32) + 32) as char
    } else {
        c
    }
}

/// `str::to_ascii_lowercase`.
pub open spec fn lower_seq(s: Seq<char>) -> Seq<char> {
    s.map_values(|c: char| lower(c))
}

/// `char::to_ascii_lowercase`.
pub fn lower_char(c: char) -> (r: char)
    ensures
        r == lower(c),
{
    if 'A' <= c && c <= 'Z' {
        let u = (c as u8) + 32;
        u as char
    } else {
        c
    }
}

/// `to_ascii_lowercase` of a character vector.
pub fn lower_vec(v: &Vec<char>) -> (r: Vec<char>)
    ensures
        r@ == lower_seq(v@),
{
    let mut r: Vec<char> = Vec::new();
    let mut i: usize = 0;
    while i < v.len()
        invariant
            i <= v@.len(),
            r@ == lower_seq(v@.take(i as int)),
        decreases v@.len() - i,
    {
        r.push(lower_char(v[i]));
        i = i + 1;
        assert(r@ =~= lower_seq(v@.take(i as int)));
    }
    assert(v@.take(v@.len() as int) =~= v@);
    r
}

// ---------------------------------------------------------------------------
// Decimal numbers
// ---------------------------------------------------------------------------

/// The ASCII digit for `d < 10`.
pub open spec fn digit(d: int) -> char {
    ((d + 48) as u32) as char
}

/// The decimal rendering of `n`, as `{}` formats an unsigned integer.
pub open spec fn decimal(n: nat) -> Seq<char>
    decreases n,
{
    if n < 10 {
        seq![digit(n as int)]
    } else {
        decimal(n / 10).push(digit((n % 10) as int))
    }
}

/// The decimal digit character of `d`.
pub fn digit_of(d: u128) -> (c: char)
    requires
        d < 10,
    ensures
        c == digit(d as int),
{
    let u = (d as u8) + 48;
    u as char
}

/// `n.to_string()` as characters.
pub fn decimal_vec(n: u128) -> (v: Vec<char>)
    ensures
        v@ == decimal(n as nat),
    decreases n,
{
    if n < 10 {
        let mut v = Vec::new();
        v.push(digit_of(n));
        assert(v@ =~= seq![digit(n as int)]);
        v
    } else {
        let mut v = decimal_vec(n / 10);
        v.push(digit_of(n % 10));
        v
    }
}

/// Append `n.to_string()` to `s`.
pub fn push_decimal(s: &mut String, n: u128)
    ensures
        final(s)@ == old(s)@ + decimal(n as nat),
{
    let v = decimal_vec(n);
    push_chars(s, &v);
}

/// ASCII `'0'..='9'`.
pub open spec fn is_digit(c: char) -> bool {
    '0' <= c <= '9'
}

/// The value of a run of ASCII digits.
pub open spec fn digits_value(s: Seq<char>) -> nat
    decreases s.len(),
{
    if s.len() == 0 {
        0
    } else {
        digits_value(s.drop_last()) * 10 + ((s.last() as u32) - 48) as nat
    }
}

/// The digits of an unsigned number: `s` without one leading `'+'`.
pub open spec fn unsigned_digits(s: Seq<char>) -> Seq<char> {
    if s.len() > 0 && s[0] == '+' {
        s.drop_first()
    } else {
        s
    }
}

/// Every character is an ASCII digit.
pub open spec fn all_digits(d: Seq<char>) -> bool {
    forall|i: int| 0 <= i < d.len() ==> is_digit(#[trigger] d[i])
}

/// `s.parse::<u32>().ok()`: an optional `'+'`, then one or more ASCII digits
/// whose value fits in a `u32`.
pub open spec fn parse_u32(s: Seq<char>) -> Option<u32> {
    let d = unsigned_digits(s);
    if d.len() == 0 || !all_digits(d) {
        None
    } else if digits_value(d) <= u32::MAX {
        Some(digits_value(d) as u32)
    } else {
        None
    }
}

/// `u32::from_str`, as an `Option`.
pub fn parse_u32_vec(v: &Vec<char>) -> (r: Option<u32>)
    ensures
        r == parse_u32(v@),
{
    let start: usize = if v.len() > 0 && v[0] == '+' {
        1
    } else {
        0
    };
    let ghost d = v@.skip(start as int);
    assert(d =~= unsigned_digits(v@));
    if start == v.len() {
        return None;
    }
    let cap: u64 = 0x1_0000_0000;
    let mut acc: u64 = 0;
    let mut i = start;
    while i < v.len()
        invariant
            start <= i <= v@.len(),
            start < v@.len(),
            cap == 0x1_0000_0000u64,
            d == v@.skip(start as int),
            d == unsigned_digits(v@),
            forall|k: int| 0 <= k < i - start ==> is_digit(#[trigger] d[k]),
            acc <= cap,
            acc == (if digits_value(d.take(i - start)) < cap {
                digits_value(d.take(i - start))
            } else {
                cap as nat
            }),
        decreases v@.len() - i,
    {
        let c = v[i];
        if !('0' <= c && c <= '9') {
            assert(!is_digit(d[i - start]));
            assert(!all_digits(d));
            return None;
        }
        let dv = (c as u32 - 48) as u64;
        assert(d.take(i + 1 - start).drop_last() =~= d.take(i - start));
        assert(d.take(i + 1 - start).last() == c);
        acc = if acc * 10 + dv >= cap {
            cap
        } else {
            acc * 10 + dv
        };
        i = i + 1;
    }
    assert(d.take(i - start) =~= d);
    if acc < cap {
        Some(acc as u32)
    } else {
        None
    }
}

// ---------------------------------------------------------------------------
// Lexicographic order
// ---------------------------------------------------------------------------

/// `a < b` in the order `String`'s `Ord` uses. UTF-8 preserves code-point order,
/// so comparing the encoded bytes and comparing the characters agree.
pub open spec fn lex_lt(a: Seq<char>, b: Seq<char>) -> bool
    decreases a.len(),
{
    if b.len() == 0 {
        false
    } else if a.len() == 0 {
        true
    } else if a[0] != b[0] {
        a[0] < b[0]
    } else {
        lex_lt(a.drop_first(), b.drop_first())
    }
}

/// `a < b` on character vectors.
pub fn lex_lt_vec(a: &Vec<char>, b: &Vec<char>) -> (r: bool)
    ensures
        r == lex_lt(a@, b@),
{
    let mut i: usize = 0;
    assert(a@.skip(0) =~= a@);
    assert(b@.skip(0) =~= b@);
    while i < a.len() && i < b.len() && a[i] == b[i]
        invariant
            i <= a@.len(),
            i <= b@.len(),
            lex_lt(a@, b@) == lex_lt(a@.skip(i as int), b@.skip(i as int)),
        decreases a@.len() - i,
    {
        assert(a@.skip(i as int).drop_first() =~= a@.skip(i + 1));
        assert(b@.skip(i as int).drop_first() =~= b@.skip(i + 1));
        i = i + 1;
    }
    if i == b.len() {
        false
    } else if i == a.len() {
        true
    } else {
        assert(a@.skip(i as int)[0] == a@[i as int]);
        assert(b@.skip(i as int)[0] == b@[i as int]);
        a[i] < b[i]
    }
}


// ---------------------------------------------------------------------------
// Character search
// ---------------------------------------------------------------------------

/// Index of the first `c` in `s`, or `s.len()` when there is none.
pub open spec fn first_index_of(s: Seq<char>, c: char) -> int
    decreases s.len(),
{
    if s.len() == 0 {
        0
    } else if s[0] == c {
        0
    } else {
        1 + first_index_of(s.drop_first(), c)
    }
}

/// `first_index_of` is the index of the first `c`, or the length.
pub proof fn lemma_first_index_of_bounds(s: Seq<char>, c: char)
    ensures
        0 <= first_index_of(s, c) <= s.len(),
        first_index_of(s, c) < s.len() ==> s[first_index_of(s, c)] == c,
        forall|j: int| 0 <= j < first_index_of(s, c) ==> s[j] != c,
    decreases s.len(),
{
    if s.len() > 0 && s[0] != c {
        let t = s.drop_first();
        lemma_first_index_of_bounds(t, c);
        assert forall|j: int| 0 <= j < first_index_of(s, c) implies s[j] != c by {
            if j > 0 {
                assert(t[j - 1] == s[j]);
            }
        }
    }
}

/// `first_index_of(v, c)`.
pub fn first_index_in(v: &Vec<char>, c: char) -> (k: usize)
    ensures
        k as int == first_index_of(v@, c),
        k <= v@.len(),
{
    let mut k: usize = 0;
    assert(v@.skip(0) =~= v@);
    while k < v.len() && v[k] != c
        invariant
            k <= v@.len(),
            first_index_of(v@, c) == k + first_index_of(v@.skip(k as int), c),
        decreases v@.len() - k,
    {
        assert(v@.skip(k as int).drop_first() =~= v@.skip(k + 1));
        k = k + 1;
    }
    k
}

/// `s.trim_end_matches(c)`: every trailing `c` removed.
pub open spec fn trim_end_char(s: Seq<char>, c: char) -> Seq<char>
    decreases s.len(),
{
    if s.len() > 0 && s.last() == c {
        trim_end_char(s.drop_last(), c)
    } else {
        s
    }
}

/// `v.trim_end_matches(c)` as a copy.
pub fn trim_end_char_vec(v: &Vec<char>, c: char) -> (r: Vec<char>)
    ensures
        r@ == trim_end_char(v@, c),
{
    let mut j = v.len();
    assert(v@.take(j as int) =~= v@);
    while j > 0 && v[j - 1] == c
        invariant
            j <= v@.len(),
            trim_end_char(v@, c) == trim_end_char(v@.take(j as int), c),
        decreases j,
    {
        assert(v@.take(j as int).drop_last() =~= v@.take(j - 1));
        j = j - 1;
    }
    let r = copy_range(v, 0, j);
    assert(r@ =~= v@.take(j as int));
    r
}

/// `ls` joined with `'\n'` between consecutive elements.
pub open spec fn join_lines(ls: Seq<Seq<char>>) -> Seq<char>
    decreases ls.len(),
{
    if ls.len() == 0 {
        Seq::empty()
    } else if ls.len() == 1 {
        ls[0]
    } else {
        join_lines(ls.drop_last()).push('\n') + ls.last()
    }
}

/// `ls.join("\n")`.
pub fn join_lines_vec(ls: &Vec<Vec<char>>) -> (s: String)
    ensures
        s@ == join_lines(ls.deep_view()),
{
    let mut s = String::new();
    let mut i: usize = 0;
    while i < ls.len()
        invariant
            i <= ls@.len(),
            s@ == join_lines(ls.deep_view().take(i as int)),
        decreases ls@.len() - i,
    {
        proof {
            lemma_char_vec_deep_view(&ls@[i as int]);
        }
        let ghost lv = ls.deep_view();
        assert(lv.take(i + 1).drop_last() =~= lv.take(i as int));
        assert(lv.take(i + 1).last() == ls@[i as int]@);
        if i > 0 {
            s.push('\n');
        } else {
            assert(lv.take(1) =~= seq![ls@[0]@]);
        }
        push_chars(&mut s, &ls[i]);
        i = i + 1;
    }
    assert(ls.deep_view().take(ls@.len() as int) =~= ls.deep_view());
    s
}


// ---------------------------------------------------------------------------
// Sorting
// ---------------------------------------------------------------------------

/// `lex_lt` is asymmetric.
pub proof fn lemma_lex_lt_asymmetric(a: Seq<char>, b: Seq<char>)
    ensures
        lex_lt(a, b) ==> !lex_lt(b, a),
    decreases a.len(),
{
    if a.len() > 0 && b.len() > 0 && a[0] == b[0] {
        lemma_lex_lt_asymmetric(a.drop_first(), b.drop_first());
    }
}

/// `lex_lt` is transitive.
pub proof fn lemma_lex_lt_transitive(a: Seq<char>, b: Seq<char>, c: Seq<char>)
    requires
        lex_lt(a, b),
        lex_lt(b, c),
    ensures
        lex_lt(a, c),
    decreases a.len(),
{
    if a.len() > 0 && b.len() > 0 && c.len() > 0 && a[0] == b[0] && b[0] == c[0] {
        lemma_lex_lt_transitive(a.drop_first(), b.drop_first(), c.drop_first());
    }
}

/// Of two different strings, one is `lex_lt` the other.
pub proof fn lemma_lex_lt_total(a: Seq<char>, b: Seq<char>)
    ensures
        a == b || lex_lt(a, b) || lex_lt(b, a),
    decreases a.len(),
{
    if a.len() == 0 && b.len() == 0 {
        assert(a =~= b);
    } else if a.len() > 0 && b.len() > 0 && a[0] == b[0] {
        lemma_lex_lt_total(a.drop_first(), b.drop_first());
        if a.drop_first() == b.drop_first() {
            assert(a =~= seq![a[0]] + a.drop_first());
            assert(b =~= seq![b[0]] + b.drop_first());
        }
    }
}

/// No element is greater than a later one (`String` order).
pub open spec fn sorted(s: Seq<Seq<char>>) -> bool {
    forall|i: int, j: int| 0 <= i < j < s.len() ==> !lex_lt(#[trigger] s[j], #[trigger] s[i])
}

/// `v` sorted ascending (`v.sort()` on strings): same elements, in order.
pub fn sort_strings(v: Vec<String>) -> (r: Vec<String>)
    ensures
        sorted(r.deep_view()),
        r.deep_view().to_multiset() == v.deep_view().to_multiset(),
{
    let mut out: Vec<String> = Vec::new();
    let mut i: usize = 0;
    assert(out.deep_view() =~= v.deep_view().take(0));
    while i < v.len()
        invariant
            i <= v@.len(),
            sorted(out.deep_view()),
            out.deep_view().to_multiset() == v.deep_view().take(i as int).to_multiset(),
        decreases v@.len() - i,
    {
        let x = v[i].clone();
        let xv = chars_of(x.as_str());
        let mut pos: usize = 0;
        while pos < out.len() && !lex_lt_vec(&xv, &chars_of(out[pos].as_str()))
            invariant
                pos <= out@.len(),
                xv@ == x@,
                forall|k: int| 0 <= k < pos ==> !lex_lt(x@, #[trigger] out.deep_view()[k]),
            decreases out@.len() - pos,
        {
            assert(out.deep_view()[pos as int] == out@[pos as int]@);
            pos = pos + 1;
        }
        let ghost old_out = out.deep_view();
        proof {
            if pos < out@.len() {
                assert(out.deep_view()[pos as int] == out@[pos as int]@);
                assert(lex_lt(x@, old_out[pos as int]));
            }
        }
        out.insert(pos, x);
        let ghost n = out.deep_view();
        assert(n =~= old_out.insert(pos as int, x@));
        proof {
            assert forall|a: int, b: int| 0 <= a < b < n.len() implies !lex_lt(
                #[trigger] n[b],
                #[trigger] n[a],
            ) by {
                if a < pos && b < pos {
                } else if a < pos && b == pos {
                } else if a < pos && b > pos {
                    assert(n[b] == old_out[b - 1]);
                } else if a == pos {
                    assert(n[b] == old_out[b - 1]);
                    let p = old_out[pos as int];
                    let q = old_out[b - 1];
                    if b - 1 > pos {
                        assert(!lex_lt(q, p));
                        lemma_lex_lt_total(p, q);
                        if p != q {
                            lemma_lex_lt_transitive(x@, p, q);
                        }
                    }
                    lemma_lex_lt_asymmetric(x@, q);
                } else {
                    assert(n[a] == old_out[a - 1]);
                    assert(n[b] == old_out[b - 1]);
                }
            }
            vstd::seq_lib::to_multiset_insert(old_out, pos as int, x@);
            let vv = v.deep_view();
            assert(vv.take(i + 1) =~= vv.take(i as int).push(vv[i as int]));
            vstd::seq_lib::to_multiset_build(vv.take(i as int), vv[i as int]);
        }
        i = i + 1;
    }
    assert(v.deep_view().take(v@.len() as int) =~= v.deep_view());
    out
}

// ---------------------------------------------------------------------------
// Lines of joined lines
// ---------------------------------------------------------------------------

/// A line as `str::lines` yields it when a `'\n'` follows: one trailing `'\r'`
/// dropped.
pub open spec fn drop_cr(x: Seq<char>) -> Seq<char> {
    if x.len() > 0 && x.last() == '\r' {
        x.drop_last()
    } else {
        x
    }
}

proof fn lemma_line_end_shift(p: Seq<char>, r: Seq<char>, i: int)
    requires
        0 <= i <= r.len(),
    ensures
        line_end(p + r, p.len() + i) == p.len() + line_end(r, i),
    decreases r.len() - i,
{
    if i < r.len() {
        assert((p + r)[p.len() + i] == r[i]);
        if r[i] != '\n' {
            lemma_line_end_shift(p, r, i + 1);
        }
    }
}

proof fn lemma_lines_from_shift(p: Seq<char>, r: Seq<char>, i: int)
    requires
        0 <= i,
    ensures
        lines_from(p + r, p.len() + i) == lines_from(r, i),
    decreases r.len() - i,
{
    if i < r.len() {
        let s = p + r;
        lemma_line_end_shift(p, r, i);
        lemma_line_end_bounds(r, i);
        let e = line_end(r, i);
        assert(s.subrange(p.len() + i, p.len() + e) =~= r.subrange(i, e));
        if e < r.len() {
            lemma_lines_from_shift(p, r, e + 1);
        }
    }
}

/// The lines of a line followed by `'\n'` and more text.
proof fn lemma_lines_cons(x: Seq<char>, r: Seq<char>)
    requires
        !x.contains('\n'),
    ensures
        lines(x + seq!['\n'] + r) == seq![drop_cr(x)] + lines(r),
{
    let p = x + seq!['\n'];
    let s = p + r;
    lemma_line_end_bounds(s, 0);
    let e = line_end(s, 0);
    assert(s[x.len() as int] == '\n');
    if e < x.len() {
        assert(x[e] == s[e]);
    }
    assert(e == x.len());
    assert(s.subrange(0, e) =~= x);
    lemma_lines_from_shift(p, r, 0);
}

/// The lines of a single line without `'\n'`.
proof fn lemma_lines_single(x: Seq<char>)
    requires
        x.len() > 0,
        !x.contains('\n'),
    ensures
        lines(x) == seq![x],
{
    lemma_line_end_bounds(x, 0);
    let e = line_end(x, 0);
    if e < x.len() {
        assert(x.contains('\n'));
    }
    assert(x.subrange(0, e) =~= x);
}

/// `join_lines` read from the front.
proof fn lemma_join_lines_front(ls: Seq<Seq<char>>)
    requires
        ls.len() >= 2,
    ensures
        join_lines(ls) == ls[0] + seq!['\n'] + join_lines(ls.drop_first()),
    decreases ls.len(),
{
    if ls.len() == 2 {
        assert(ls.drop_last() =~= seq![ls[0]]);
        assert(ls.drop_first() =~= seq![ls[1]]);
        assert(join_lines(ls.drop_last()).push('\n') =~= ls[0] + seq!['\n']);
    } else {
        lemma_join_lines_front(ls.drop_last());
        let rest = ls.drop_first();
        assert(rest.drop_last() =~= ls.drop_last().drop_first());
        assert(rest.last() == ls.last());
        assert(join_lines(ls) =~= ls[0] + seq!['\n'] + join_lines(rest));
    }
}

/// `str::lines` undoes `join_lines`, up to the `'\r'` it drops before each
/// `'\n'`: the lines of `join_lines(ls)`, followed by `tail` (nothing or one
/// `'\n'`), are the lines of `ls`, each with a trailing `'\r'` dropped where a
/// `'\n'` follows it.
pub proof fn lemma_lines_of_join(ls: Seq<Seq<char>>, tail: Seq<char>)
    requires
        ls.len() >= 1,
        forall|i: int| 0 <= i < ls.len() ==> !(#[trigger] ls[i]).contains('\n'),
        tail == Seq::<char>::empty() || tail == seq!['\n'],
        tail.len() == 0 ==> ls.last().len() > 0,
    ensures
        lines(join_lines(ls) + tail) == Seq::new(
            ls.len(),
            |i: int|
                if i < ls.len() - 1 || tail.len() > 0 {
                    drop_cr(ls[i])
                } else {
                    ls[i]
                },
        ),
    decreases ls.len(),
{
    let want = Seq::new(
        ls.len(),
        |i: int|
            if i < ls.len() - 1 || tail.len() > 0 {
                drop_cr(ls[i])
            } else {
                ls[i]
            },
    );
    assert(!ls[0].contains('\n'));
    if ls.len() == 1 {
        assert(join_lines(ls) == ls[0]);
        if tail.len() == 0 {
            assert(ls[0] + tail =~= ls[0]);
            lemma_lines_single(ls[0]);
        } else {
            assert(ls[0] + tail =~= ls[0] + seq!['\n'] + Seq::<char>::empty());
            lemma_lines_cons(ls[0], Seq::empty());
            assert(lines(Seq::<char>::empty()) =~= Seq::<Seq<char>>::empty());
        }
        assert(lines(join_lines(ls) + tail) =~= want);
    } else {
        let rest = ls.drop_first();
        assert forall|i: int| 0 <= i < rest.len() implies !(#[trigger] rest[i]).contains('\n') by {
            assert(rest[i] == ls[i + 1]);
        }
        assert(rest.last() == ls.last());
        lemma_lines_of_join(rest, tail);
        lemma_join_lines_front(ls);
        assert(join_lines(ls) + tail =~= ls[0] + seq!['\n'] + (join_lines(rest) + tail));
        lemma_lines_cons(ls[0], join_lines(rest) + tail);
        assert(lines(join_lines(ls) + tail) =~= want);
    }
}

/// No line of `s` holds a `'\n'`.
pub proof fn lemma_lines_no_newline(s: Seq<char>, i: int)
    requires
        0 <= i,
    ensures
        forall|k: int| 0 <= k < lines_from(s, i).len() ==> !(#[trigger] lines_from(s, i)[k]).contains('\n'),
    decreases s.len() - i,
{
    if i < s.len() {
        lemma_line_end_bounds(s, i);
        let e = line_end(s, i);
        let raw = s.subrange(i, e);
        assert(!raw.contains('\n')) by {
            if raw.contains('\n') {
                let j = choose|j: int| 0 <= j < raw.len() && raw[j] == '\n';
                assert(s[i + j] == '\n');
            }
        }
        if raw.len() > 0 {
            assert(!raw.drop_last().contains('\n')) by {
                if raw.drop_last().contains('\n') {
                    let j = choose|j: int|
                        0 <= j < raw.drop_last().len() && raw.drop_last()[j] == '\n';
                    assert(raw[j] == '\n');
                }
            }
        }
        if e < s.len() {
            lemma_lines_no_newline(s, e + 1);
        }
        let ls = lines_from(s, i);
        assert forall|k: int| 0 <= k < ls.len() implies !(#[trigger] ls[k]).contains('\n') by {
            if k > 0 {
                assert(ls[k] == lines_from(s, e + 1)[k - 1]);
            }
        }
    }
}

/// Text that does not end in `'\n'` has a last line, and it is not empty.
pub proof fn lemma_last_line_nonempty(s: Seq<char>, i: int)
    requires
        0 <= i < s.len(),
        s.last() != '\n',
    ensures
        lines_from(s, i).len() > 0,
        lines_from(s, i).last().len() > 0,
    decreases s.len() - i,
{
    lemma_line_end_bounds(s, i);
    let e = line_end(s, i);
    if e < s.len() {
        if e + 1 < s.len() {
            lemma_last_line_nonempty(s, e + 1);
        }
    }
}

} // verus!
