//! Character-sequence helpers: the std string behaviour that the diff parser relies on
//! (`str::lines`, `str::find`, `str::trim`, `str::split`, `u32::from_str`), each stated
//! over `Seq<char>` and implemented over `Vec<char>`.

use vstd::prelude::*;

verus! {

/// `String::push` appends one character to the end of the string.
pub assume_specification[ String::push ](s: &mut String, ch: char)
    ensures
        final(s)@ == old(s)@.push(ch),
;

// ---------------------------------------------------------------------------
// Specifications
// ---------------------------------------------------------------------------

/// The first index `>= k` holding `c`, or `s.len()` when there is none.
pub open spec fn next_pos(s: Seq<char>, c: char, k: int) -> int
    decreases s.len() - k,
{
    if k < 0 || k >= s.len() {
        s.len() as int
    } else if s[k] == c {
        k
    } else {
        next_pos(s, c, k + 1)
    }
}

pub proof fn lemma_next_pos_bounds(s: Seq<char>, c: char, k: int)
    requires
        0 <= k,
    ensures
        k <= next_pos(s, c, k) || k > s.len(),
        next_pos(s, c, k) <= s.len(),
        next_pos(s, c, k) < s.len() ==> s[next_pos(s, c, k)] == c,
        forall|j: int| k <= j < next_pos(s, c, k) ==> s[j] != c,
    decreases s.len() - k,
{
    if k < s.len() && s[k] != c {
        lemma_next_pos_bounds(s, c, k + 1);
    }
}

/// A line with one trailing carriage return removed, as `str::lines` does for `\r\n`.
pub open spec fn strip_cr(l: Seq<char>) -> Seq<char> {
    if l.len() > 0 && l.last() == '\r' {
        l.drop_last()
    } else {
        l
    }
}

/// The lines of `s` from index `k` on, with `str::lines` semantics: split at `\n`, a
/// `\r` before a `\n` is dropped, and a final empty line is not produced.
pub open spec fn lines_from(s: Seq<char>, k: int) -> Seq<Seq<char>>
    decreases s.len() - k,
{
    if k < 0 || k >= s.len() {
        seq![]
    } else {
        let e = next_pos(s, '\n', k);
        if e >= s.len() {
            seq![s.subrange(k, s.len() as int)]
        } else {
            proof {
                lemma_next_pos_bounds(s, '\n', k);
            }
            seq![strip_cr(s.subrange(k, e))] + lines_from(s, e + 1)
        }
    }
}

/// What `str::lines` yields for `s`.
pub open spec fn lines_of(s: Seq<char>) -> Seq<Seq<char>> {
    lines_from(s, 0)
}

/// `s` starts with `p`.
pub open spec fn has_prefix(s: Seq<char>, p: Seq<char>) -> bool {
    p.len() <= s.len() && s.subrange(0, p.len() as int) == p
}

/// The first index `>= k` at which `p` occurs in `s`.
pub open spec fn find_from(s: Seq<char>, p: Seq<char>, k: int) -> Option<int>
    decreases s.len() + 1 - k,
{
    if k < 0 || k > s.len() || k + p.len() > s.len() {
        None
    } else if s.subrange(k, k + p.len()) == p {
        Some(k)
    } else {
        find_from(s, p, k + 1)
    }
}

/// What `str::find` gives for a pattern string (in characters rather than bytes).
pub open spec fn find_first(s: Seq<char>, p: Seq<char>) -> Option<int> {
    find_from(s, p, 0)
}

/// `char::is_whitespace`: the characters with the Unicode `White_Space` property.
pub open spec fn is_ws(c: char) -> bool {
    let u = c as u32;
    ||| 0x09 <= u <= 0x0D
    ||| u == 0x20
    ||| u == 0x85
    ||| u == 0xA0
    ||| u == 0x1680
    ||| 0x2000 <= u <= 0x200A
    ||| u == 0x2028
    ||| u == 0x2029
    ||| u == 0x202F
    ||| u == 0x205F
    ||| u == 0x3000
}

/// The end of the run of whitespace that starts at `k`.
pub open spec fn ws_prefix_end(s: Seq<char>, k: int) -> int
    decreases s.len() - k,
{
    if 0 <= k < s.len() && is_ws(s[k]) {
        ws_prefix_end(s, k + 1)
    } else {
        k
    }
}

/// The start of the run of whitespace that ends at `k`, going no lower than `lo`.
pub open spec fn ws_suffix_start(s: Seq<char>, lo: int, k: int) -> int
    decreases k - lo,
{
    if lo < k <= s.len() && is_ws(s[k - 1]) {
        ws_suffix_start(s, lo, k - 1)
    } else {
        k
    }
}

/// `str::trim`: `s` without leading and trailing whitespace.
pub open spec fn trim(s: Seq<char>) -> Seq<char> {
    let a = ws_prefix_end(s, 0);
    s.subrange(a, ws_suffix_start(s, a, s.len() as int))
}

/// The pieces of `s` from index `k` on, split at every `c` (`str::split` with a char).
pub open spec fn split_from(s: Seq<char>, c: char, k: int) -> Seq<Seq<char>>
    decreases s.len() + 1 - k,
{
    if k < 0 || k > s.len() {
        seq![]
    } else {
        let e = next_pos(s, c, k);
        proof {
            lemma_next_pos_bounds(s, c, k);
        }
        seq![s.subrange(k, e)] + split_from(s, c, e + 1)
    }
}

/// What `str::split(c)` yields for `s`: always at least one (possibly empty) piece.
pub open spec fn split_on(s: Seq<char>, c: char) -> Seq<Seq<char>> {
    split_from(s, c, 0)
}

/// The first piece of `split_on(s, c)`.
pub open spec fn first_piece(s: Seq<char>, c: char) -> Seq<char> {
    s.subrange(0, next_pos(s, c, 0))
}

pub open spec fn is_digit(c: char) -> bool {
    '0' <= c && c <= '9'
}

pub open spec fn digit_val(c: char) -> int {
    (c as u32) - ('0' as u32)
}

pub open spec fn all_digits(d: Seq<char>) -> bool {
    forall|i: int| 0 <= i < d.len() ==> is_digit(#[trigger] d[i])
}

/// The number that the decimal digits `d` denote.
pub open spec fn dec_value(d: Seq<char>) -> int
    decreases d.len(),
{
    if d.len() == 0 {
        0
    } else {
        dec_value(d.drop_last()) * 10 + digit_val(d.last())
    }
}

/// `s.parse::<u32>()` as an `Option`: an optional `+` followed by at least one ASCII
/// digit, with a value no larger than `u32::MAX`.
pub open spec fn parse_u32_spec(s: Seq<char>) -> Option<u32> {
    let d = if s.len() > 1 && s[0] == '+' {
        s.skip(1)
    } else {
        s
    };
    if d.len() > 0 && all_digits(d) && dec_value(d) <= u32::MAX {
        Some(dec_value(d) as u32)
    } else {
        None
    }
}

pub proof fn lemma_dec_value_prefix(d: Seq<char>, j: int)
    requires
        all_digits(d),
        0 <= j <= d.len(),
    ensures
        0 <= dec_value(d.take(j)) <= dec_value(d),
    decreases d.len(),
{
    if d.len() > 0 {
        let dl = d.drop_last();
        assert(all_digits(dl)) by {
            assert forall|i: int| 0 <= i < dl.len() implies is_digit(#[trigger] dl[i]) by {
                assert(dl[i] == d[i]);
            }
        }
        assert(is_digit(d[d.len() - 1]));
        if j == d.len() {
            assert(d.take(j) == d);
            lemma_dec_value_prefix(dl, j - 1);
        } else {
            assert(d.take(j) == dl.take(j));
            lemma_dec_value_prefix(dl, j);
        }
    } else {
        assert(d.take(j) == d);
    }
}

// ---------------------------------------------------------------------------
// Executable helpers
// ---------------------------------------------------------------------------

/// The characters of `s`, in order.
pub fn chars_of(s: &str) -> (v: Vec<char>)
    ensures
        v@ == s@,
{
    let mut v: Vec<char> = Vec::new();
    for c in it: s.chars()
        invariant
            v@ == it.seq().take(it.index() as int),
    {
        v.push(c);
    }
    v
}

/// A `String` holding the characters `cs[from..to]`.
pub fn string_of(cs: &Vec<char>, from: usize, to: usize) -> (s: String)
    requires
        from <= to <= cs@.len(),
    ensures
        s@ == cs@.subrange(from as int, to as int),
{
    let mut s = String::new();
    let mut i = from;
    while i < to
        invariant
            from <= i <= to <= cs@.len(),
            s@ == cs@.subrange(from as int, i as int),
        decreases to - i,
    {
        s.push(cs[i]);
        assert(cs@.subrange(from as int, i + 1) == cs@.subrange(from as int, i as int).push(
            cs@[i as int],
        ));
        i = i + 1;
    }
    s
}

/// A copy of `cs[from..to]`.
pub fn sub_vec(cs: &Vec<char>, from: usize, to: usize) -> (v: Vec<char>)
    requires
        from <= to <= cs@.len(),
    ensures
        v@ == cs@.subrange(from as int, to as int),
{
    let mut v: Vec<char> = Vec::new();
    let mut i = from;
    while i < to
        invariant
            from <= i <= to <= cs@.len(),
            v@ == cs@.subrange(from as int, i as int),
        decreases to - i,
    {
        v.push(cs[i]);
        assert(cs@.subrange(from as int, i + 1) == cs@.subrange(from as int, i as int).push(
            cs@[i as int],
        ));
        i = i + 1;
    }
    v
}

/// The first index `>= k` holding `c`, or `cs.len()`.
pub fn next_pos_exec(cs: &Vec<char>, c: char, k: usize) -> (e: usize)
    requires
        k <= cs@.len(),
    ensures
        e == next_pos(cs@, c, k as int),
{
    let mut j = k;
    while j < cs.len() && cs[j] != c
        invariant
            k <= j <= cs@.len(),
            next_pos(cs@, c, k as int) == next_pos(cs@, c, j as int),
        decreases cs@.len() - j,
    {
        j = j + 1;
    }
    j
}

/// The views of a sequence of character vectors.
pub open spec fn seqs_view(ls: Seq<Vec<char>>) -> Seq<Seq<char>> {
    ls.map_values(|v: Vec<char>| v@)
}

/// The lines of `cs`, as `str::lines` yields them.
pub fn split_lines(cs: &Vec<char>) -> (ls: Vec<Vec<char>>)
    ensures
        seqs_view(ls@) == lines_of(cs@),
{
    let mut ls: Vec<Vec<char>> = Vec::new();
    let mut k: usize = 0;
    while k < cs.len()
        invariant
            k <= cs@.len(),
            lines_of(cs@) == seqs_view(ls@) + lines_from(cs@, k as int),
        decreases cs@.len() - k,
    {
        let e = next_pos_exec(cs, '\n', k);
        proof {
            lemma_next_pos_bounds(cs@, '\n', k as int);
        }
        let ghost before = seqs_view(ls@);
        if e >= cs.len() {
            let l = sub_vec(cs, k, cs.len());
            ls.push(l);
            assert(seqs_view(ls@) =~= before.push(cs@.subrange(k as int, cs@.len() as int)));
            assert(lines_from(cs@, cs@.len() as int) == Seq::<Seq<char>>::empty());
            k = cs.len();
        } else {
            let mut end = e;
            if e > k && cs[e - 1] == '\r' {
                end = e - 1;
            }
            let l = sub_vec(cs, k, end);
            assert(l@ == strip_cr(cs@.subrange(k as int, e as int)));
            ls.push(l);
            assert(seqs_view(ls@) =~= before.push(strip_cr(cs@.subrange(k as int, e as int))));
            k = e + 1;
        }
    }
    assert(lines_from(cs@, k as int) == Seq::<Seq<char>>::empty());
    ls
}

/// `cs[at..]` starts with `p`.
pub fn has_prefix_at(cs: &Vec<char>, at: usize, p: &Vec<char>) -> (b: bool)
    requires
        at <= cs@.len(),
    ensures
        b == has_prefix(cs@.skip(at as int), p@),
{
    if cs.len() - at < p.len() {
        return false;
    }
    let mut i: usize = 0;
    while i < p.len()
        invariant
            i <= p@.len(),
            at + p@.len() <= cs@.len(),
            cs@.len() == cs.len(),
            forall|j: int| 0 <= j < i ==> cs@[at + j] == p@[j],
        decreases p@.len() - i,
    {
        assert(at + i < cs.len());
        if cs[at + i] != p[i] {
            assert(cs@.skip(at as int).subrange(0, p@.len() as int)[i as int] != p@[i as int]);
            return false;
        }
        i = i + 1;
    }
    assert(cs@.skip(at as int).subrange(0, p@.len() as int) == p@);
    true
}

/// The first index `>= at` at which `p` occurs in `cs`, counted from `at`.
pub fn find_exec(cs: &Vec<char>, at: usize, p: &Vec<char>) -> (r: Option<usize>)
    requires
        at <= cs@.len(),
    ensures
        r matches Some(i) ==> find_first(cs@.skip(at as int), p@) == Some(i as int),
        r is None ==> find_first(cs@.skip(at as int), p@) is None,
{
    let ghost s = cs@.skip(at as int);
    let mut k: usize = 0;
    while k <= cs.len() - at && p.len() <= cs.len() - at - k
        invariant
            at <= cs@.len(),
            k <= cs@.len() - at,
            s == cs@.skip(at as int),
            find_first(s, p@) == find_from(s, p@, k as int),
        decreases cs@.len() - at - k,
    {
        if has_prefix_at(cs, at + k, p) {
            assert(cs@.skip(at + k) == s.skip(k as int));
            assert(s.subrange(k as int, k + p@.len()) == s.skip(k as int).subrange(
                0,
                p@.len() as int,
            ));
            return Some(k);
        }
        assert(cs@.skip(at + k) == s.skip(k as int));
        assert(s.subrange(k as int, k + p@.len()) == s.skip(k as int).subrange(
            0,
            p@.len() as int,
        ));
        assert(p@.len() > 0) by {
            if p@.len() == 0 {
                assert(s.subrange(k as int, k as int) == p@);
            }
        }
        if k == cs.len() - at {
            return None;
        }
        k = k + 1;
    }
    None
}

/// `char::is_whitespace`.
pub fn is_ws_exec(c: char) -> (b: bool)
    ensures
        b == is_ws(c),
{
    let u = c as u32;
    (0x09 <= u && u <= 0x0D) || u == 0x20 || u == 0x85 || u == 0xA0 || u == 0x1680 || (0x2000
        <= u && u <= 0x200A) || u == 0x2028 || u == 0x2029 || u == 0x202F || u == 0x205F || u
        == 0x3000
}

/// The bounds `(a, b)` of `str::trim` applied to `cs[at..]`, as indices into `cs`.
pub fn trim_bounds(cs: &Vec<char>, at: usize) -> (r: (usize, usize))
    requires
        at <= cs@.len(),
    ensures
        at <= r.0 <= r.1 <= cs@.len(),
        cs@.subrange(r.0 as int, r.1 as int) == trim(cs@.skip(at as int)),
{
    let ghost s = cs@.skip(at as int);
    let mut a = at;
    while a < cs.len() && is_ws_exec(cs[a])
        invariant
            at <= a <= cs@.len(),
            s == cs@.skip(at as int),
            ws_prefix_end(s, 0) == ws_prefix_end(s, a - at),
        decreases cs@.len() - a,
    {
        assert(s[a - at] == cs@[a as int]);
        a = a + 1;
    }
    if a < cs.len() {
        assert(s[a - at] == cs@[a as int]);
    }
    assert(ws_prefix_end(s, a - at) == a - at);
    let mut b = cs.len();
    while b > a && is_ws_exec(cs[b - 1])
        invariant
            at <= a <= b <= cs@.len(),
            s == cs@.skip(at as int),
            ws_prefix_end(s, 0) == a - at,
            ws_suffix_start(s, a - at, s.len() as int) == ws_suffix_start(s, a - at, b - at),
        decreases b - a,
    {
        assert(s[b - 1 - at] == cs@[b - 1]);
        b = b - 1;
    }
    if b > a {
        assert(s[b - 1 - at] == cs@[b - 1]);
    }
    assert(ws_suffix_start(s, a - at, b - at) == b - at);
    assert(cs@.subrange(a as int, b as int) == s.subrange(a - at, b - at));
    (a, b)
}

/// `cs[from..to].parse::<u32>().ok()`.
pub fn parse_u32(cs: &Vec<char>, from: usize, to: usize) -> (r: Option<u32>)
    requires
        from <= to <= cs@.len(),
    ensures
        r == parse_u32_spec(cs@.subrange(from as int, to as int)),
{
    let ghost s = cs@.subrange(from as int, to as int);
    let mut start = from;
    if to - from > 1 && cs[from] == '+' {
        start = from + 1;
    }
    let ghost d = cs@.subrange(start as int, to as int);
    assert(d == (if s.len() > 1 && s[0] == '+' {
        s.skip(1)
    } else {
        s
    }));
    if start == to {
        return None;
    }
    let mut v: u64 = 0;
    let mut i = start;
    while i < to
        invariant
            from <= start < to <= cs@.len(),
            start <= i <= to,
            s == cs@.subrange(from as int, to as int),
            d == cs@.subrange(start as int, to as int),
            d == (if s.len() > 1 && s[0] == '+' {
                s.skip(1)
            } else {
                s
            }),
            all_digits(d.take(i - start)),
            v == dec_value(d.take(i - start)),
            v <= u32::MAX,
        decreases to - i,
    {
        let c = cs[i];
        if !('0' <= c && c <= '9') {
            assert(d[i - start] == c);
            return None;
        }
        let ghost pre = d.take(i - start);
        let ghost nxt = d.take(i - start + 1);
        assert(nxt.drop_last() == pre);
        assert(nxt.last() == c);
        assert(all_digits(nxt)) by {
            assert forall|j: int| 0 <= j < nxt.len() implies is_digit(#[trigger] nxt[j]) by {
                if j < pre.len() {
                    assert(nxt[j] == pre[j]);
                }
            }
        }
        v = v * 10 + ((c as u32) - ('0' as u32)) as u64;
        if v > 0xFFFF_FFFF {
            proof {
                if all_digits(d) {
                    lemma_dec_value_prefix(d, i - start + 1);
                }
            }
            return None;
        }
        i = i + 1;
    }
    assert(d.take(i - start) == d);
    Some(v as u32)
}

// ---------------------------------------------------------------------------
// Decimal numbers
// ---------------------------------------------------------------------------

pub open spec fn digit_char(d: int) -> char {
    ((48 + d) as u8) as char
}

/// The decimal digits of `n`.
pub open spec fn decimal(n: nat) -> Seq<char>
    decreases n,
{
    if n < 10 {
        seq![digit_char(n as int)]
    } else {
        decimal(n / 10).push(digit_char((n % 10) as int))
    }
}

/// Appends the decimal digits of `n`.
pub fn push_decimal(s: &mut String, n: u64)
    ensures
        final(s)@ == old(s)@ + decimal(n as nat),
    decreases n,
{
    if n >= 10 {
        push_decimal(s, n / 10);
    }
    let d = n % 10;
    let c = ((48 + d) as u8) as char;
    s.push(c);
    assert(c == digit_char((n % 10) as int));
}


pub proof fn lemma_decimal_ascii(n: nat)
    ensures
        vstd::utf8::is_ascii_chars(decimal(n)),
        decimal(n).len() >= 1,
    decreases n,
{
    if n >= 10 {
        lemma_decimal_ascii(n / 10);
    }
    let d = if n < 10 { n as int } else { (n % 10) as int };
    assert(0 <= d < 10);
    assert(((48 + d) as u8) as char <= '\u{7f}');
}

/// `10` to the power `k`.
pub open spec fn pow10(k: nat) -> nat
    decreases k,
{
    if k == 0 {
        1
    } else {
        10 * pow10((k - 1) as nat)
    }
}

/// A number below `10^k` has at most `k` decimal digits.
pub proof fn lemma_decimal_len(n: nat, k: nat)
    requires
        k >= 1,
        n < pow10(k),
    ensures
        decimal(n).len() <= k,
    decreases k,
{
    if n >= 10 {
        let p = pow10((k - 1) as nat);
        assert(n / 10 < p) by (nonlinear_arith)
            requires
                n < 10 * p,
        ;
        if k == 1 {
            assert(pow10(0) == 1);
        } else {
            lemma_decimal_len(n / 10, (k - 1) as nat);
        }
    }
}

/// A `u64` has at most twenty decimal digits.
pub proof fn lemma_decimal_u64_len(n: u64)
    ensures
        decimal(n as nat).len() <= 20,
{
    assert(pow10(20) == 100000000000000000000) by {
        reveal_with_fuel(pow10, 21);
    }
    lemma_decimal_len(n as nat, 20);
}

/// The decimal digits of `n` are digits, and they denote `n`.
pub proof fn law_decimal_denotes_its_number(n: nat)
    ensures
        all_digits(decimal(n)),
        dec_value(decimal(n)) == n,
        decimal(n).len() >= 1,
    decreases n,
{
    let d = if n < 10 { n as int } else { (n % 10) as int };
    assert(0 <= d < 10);
    let c = digit_char(d);
    assert(c as u32 == 48 + d);
    if n < 10 {
        let s = seq![c];
        assert(s.drop_last() =~= Seq::<char>::empty());
        assert(dec_value(s) == dec_value(s.drop_last()) * 10 + digit_val(s.last()));
    } else {
        law_decimal_denotes_its_number(n / 10);
        let t = decimal(n / 10);
        let s = t.push(c);
        assert(s.drop_last() == t);
        assert forall|i: int| 0 <= i < s.len() implies is_digit(#[trigger] s[i]) by {
            if i < t.len() {
                assert(s[i] == t[i]);
            }
        }
        assert(dec_value(s) == dec_value(t) * 10 + digit_val(c));
        assert(n == (n / 10) * 10 + n % 10);
    }
}

/// An ASCII text takes one byte per character.
pub proof fn lemma_ascii_len(s: Seq<char>)
    requires
        vstd::utf8::is_ascii_chars(s),
    ensures
        vstd::utf8::encode_utf8(s).len() == s.len(),
{
    vstd::utf8::is_ascii_chars_encode_utf8(s);
}

} // verus!
