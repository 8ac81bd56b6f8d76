//! Text building blocks shared by every renderer: number formatting, string
//! appends, character-level comparison, and the specifications they meet.

use vstd::prelude::*;

verus! {

/// The character for a digit value in `0..16`, upper-case for `A`..`F`.
pub open spec fn digit_char(d: int) -> char {
    if d < 10 {
        (d + 48) as char
    } else {
        (d + 55) as char
    }
}

/// The characters of an optional string.
pub open spec fn opt_str(o: Option<String>) -> Option<Seq<char>> {
    match o {
        Some(s) => Some(s@),
        None => None,
    }
}

/// Each piece on a line of its own, with a blank line before it: the layout
/// of top-level items in generated C files.
pub open spec fn blocks(pieces: Seq<Seq<char>>) -> Seq<char>
    decreases pieces.len(),
{
    if pieces.len() == 0 {
        Seq::empty()
    } else {
        blocks(pieces.drop_last()) + "\n"@ + pieces.last() + "\n"@
    }
}

/// Decimal representation of a natural number, without leading zeros.
pub open spec fn dec(n: nat) -> Seq<char>
    decreases n,
{
    if n < 10 {
        seq![digit_char(n as int)]
    } else {
        dec(n / 10).push(digit_char((n % 10) as int))
    }
}

/// Upper-case hexadecimal representation of a natural number.
pub open spec fn hex(n: nat) -> Seq<char>
    decreases n,
{
    if n < 16 {
        seq![digit_char(n as int)]
    } else {
        hex(n / 16).push(digit_char((n % 16) as int))
    }
}

/// Decimal representation of an integer, with a leading `-` when negative.
pub open spec fn dec_int(n: int) -> Seq<char> {
    if n < 0 {
        seq!['-'] + dec((-n) as nat)
    } else {
        dec(n as nat)
    }
}

/// The `{:#04X}` rendering: `0x` and at least two upper-case hex digits.
pub open spec fn hex_byte(n: nat) -> Seq<char> {
    seq!['0', 'x'] + (if n < 16 {
        seq!['0']
    } else {
        Seq::<char>::empty()
    }) + hex(n)
}

/// `count` followed by the singular or the plural noun.
pub open spec fn counted(count: nat, singular: Seq<char>, plural: Seq<char>) -> Seq<char> {
    dec(count) + seq![' '] + (if count == 1 {
        singular
    } else {
        plural
    })
}

/// Join pieces with a separator between consecutive pieces.
pub open spec fn join(pieces: Seq<Seq<char>>, sep: Seq<char>) -> Seq<char>
    decreases pieces.len(),
{
    if pieces.len() == 0 {
        Seq::empty()
    } else if pieces.len() == 1 {
        pieces[0]
    } else {
        join(pieces.drop_last(), sep) + sep + pieces.last()
    }
}

/// Concatenate pieces with nothing between them.
pub open spec fn concat(pieces: Seq<Seq<char>>) -> Seq<char>
    decreases pieces.len(),
{
    if pieces.len() == 0 {
        Seq::empty()
    } else {
        concat(pieces.drop_last()) + pieces.last()
    }
}

/// Concatenate a sequence of sequences.
pub open spec fn cat<A>(s: Seq<Seq<A>>) -> Seq<A>
    decreases s.len(),
{
    if s.len() == 0 {
        Seq::empty()
    } else {
        cat(s.drop_last()) + s.last()
    }
}

/// Concatenating one more piece appends it.
pub proof fn lemma_cat_push<A>(s: Seq<Seq<A>>, x: Seq<A>)
    ensures
        cat(s.push(x)) == cat(s) + x,
{
    assert(s.push(x).drop_last() =~= s);
}

/// An element of a piece is an element of the concatenation.
pub proof fn lemma_cat_contains<A>(s: Seq<Seq<A>>, i: int, x: A)
    requires
        0 <= i < s.len(),
        s[i].contains(x),
    ensures
        cat(s).contains(x),
    decreases s.len(),
{
    if i < s.len() - 1 {
        lemma_cat_contains(s.drop_last(), i, x);
        let k = cat(s.drop_last()).index_of(x);
        assert(cat(s)[k] == x);
    } else {
        let k = s[i].index_of(x);
        assert(cat(s)[cat(s.drop_last()).len() + k] == x);
    }
}

/// A prefix of one more element extends the mapped prefix.
pub proof fn lemma_take_map_push<A, B>(s: Seq<A>, f: spec_fn(A) -> B, k: int)
    requires
        0 <= k < s.len(),
    ensures
        s.take(k + 1).map_values(f) == s.take(k).map_values(f).push(f(s[k])),
{
    assert(s.take(k + 1).map_values(f) =~= s.take(k).map_values(f).push(f(s[k])));
}

/// Strict lexicographic order on character sequences, comparing code points.
/// This is the order of Rust's `str` comparison (UTF-8 keeps code-point order).
pub open spec fn seq_lt(a: Seq<char>, b: Seq<char>) -> bool
    decreases a.len(),
{
    if a.len() == 0 {
        b.len() > 0
    } else if b.len() == 0 {
        false
    } else if a[0] != b[0] {
        a[0] < b[0]
    } else {
        seq_lt(a.drop_first(), b.drop_first())
    }
}

/// Non-strict lexicographic order.
pub open spec fn seq_le(a: Seq<char>, b: Seq<char>) -> bool {
    a == b || seq_lt(a, b)
}

/// `seq_lt` is irreflexive.
pub proof fn lemma_lt_irreflexive(a: Seq<char>)
    ensures
        !seq_lt(a, a),
    decreases a.len(),
{
    if a.len() > 0 {
        lemma_lt_irreflexive(a.drop_first());
    }
}

/// `seq_lt` is transitive.
pub proof fn lemma_lt_transitive(a: Seq<char>, b: Seq<char>, c: Seq<char>)
    requires
        seq_lt(a, b),
        seq_lt(b, c),
    ensures
        seq_lt(a, c),
    decreases a.len(),
{
    if a.len() > 0 && b.len() > 0 && c.len() > 0 && a[0] == b[0] && b[0] == c[0] {
        lemma_lt_transitive(a.drop_first(), b.drop_first(), c.drop_first());
    }
}

/// `seq_lt` is total on distinct sequences.
pub proof fn lemma_lt_total(a: Seq<char>, b: Seq<char>)
    ensures
        a == b || seq_lt(a, b) || seq_lt(b, a),
    decreases a.len(),
{
    if a.len() > 0 && b.len() > 0 && a[0] == b[0] {
        lemma_lt_total(a.drop_first(), b.drop_first());
        if a.drop_first() == b.drop_first() {
            assert(a =~= seq![a[0]] + a.drop_first());
            assert(b =~= seq![b[0]] + b.drop_first());
        }
    } else if a.len() > 0 && b.len() > 0 {
    } else if a.len() == 0 && b.len() == 0 {
        assert(a =~= b);
    }
}

/// `seq_lt` is asymmetric.
pub proof fn lemma_lt_asymmetric(a: Seq<char>, b: Seq<char>)
    requires
        seq_lt(a, b),
    ensures
        !seq_lt(b, a),
{
    if seq_lt(b, a) {
        lemma_lt_transitive(a, b, a);
        lemma_lt_irreflexive(a);
    }
}

/// Pushing onto a sequence adds exactly the pushed element.
pub proof fn lemma_push_contains<T>(s: Seq<T>, v: T, y: T)
    ensures
        s.push(v).contains(y) == (s.contains(y) || y == v),
{
    if s.push(v).contains(y) {
        let k = s.push(v).index_of(y);
        if k < s.len() {
            assert(s[k] == y);
        }
    }
    if s.contains(y) {
        let k = s.index_of(y);
        assert(s.push(v)[k] == y);
    }
    if y == v {
        assert(s.push(v)[s.len() as int] == v);
    }
}

/// Append a character to a string.
#[verifier::external_body]
pub fn push_char(s: &mut String, c: char)
    ensures
        final(s)@ == old(s)@.push(c),
{
    s.push(c)
}

/// Append a string slice to a string.
pub fn push_str(s: &mut String, t: &str)
    ensures
        final(s)@ == old(s)@ + t@,
{
    s.append(t);
}

/// A fresh string holding the given slice.
pub fn owned(t: &str) -> (r: String)
    ensures
        r@ == t@,
{
    t.to_owned()
}

/// The character of a digit value.
pub fn digit(d: u64) -> (c: char)
    requires
        d < 16,
    ensures
        c == digit_char(d as int),
{
    if d < 10 {
        ((d as u8) + 48u8) as char
    } else {
        ((d as u8) + 55u8) as char
    }
}

/// Append the decimal representation of `n`.
pub fn push_dec(s: &mut String, n: u64)
    ensures
        final(s)@ == old(s)@ + dec(n as nat),
    decreases n,
{
    if n >= 10 {
        push_dec(s, n / 10);
    }
    let d = digit(n % 10);
    push_char(s, d);
    assert(final(s)@ =~= old(s)@ + dec(n as nat));
}

/// Append the upper-case hexadecimal representation of `n`.
pub fn push_hex(s: &mut String, n: u64)
    ensures
        final(s)@ == old(s)@ + hex(n as nat),
    decreases n,
{
    if n >= 16 {
        push_hex(s, n / 16);
    }
    let d = digit(n % 16);
    push_char(s, d);
    assert(final(s)@ =~= old(s)@ + hex(n as nat));
}

/// Append the decimal representation of a signed integer.
pub fn push_dec_i64(s: &mut String, n: i64)
    ensures
        final(s)@ == old(s)@ + dec_int(n as int),
{
    if n < 0 {
        push_char(s, '-');
        let m: u64 = if n == i64::MIN {
            9223372036854775808u64
        } else {
            (-n) as u64
        };
        push_dec(s, m);
        assert(final(s)@ =~= old(s)@ + dec_int(n as int));
    } else {
        push_dec(s, n as u64);
    }
}

/// Append `0x` and at least two upper-case hex digits (`{:#04X}`).
pub fn push_hex_byte(s: &mut String, n: u64)
    ensures
        final(s)@ == old(s)@ + hex_byte(n as nat),
{
    push_char(s, '0');
    push_char(s, 'x');
    if n < 16 {
        push_char(s, '0');
    }
    push_hex(s, n);
    assert(final(s)@ =~= old(s)@ + hex_byte(n as nat));
}

/// The decimal representation of `n` as a new string.
pub fn dec_string(n: u64) -> (r: String)
    ensures
        r@ == dec(n as nat),
{
    let mut s = String::new();
    push_dec(&mut s, n);
    assert(s@ =~= dec(n as nat));
    s
}

/// Append `count` and the singular or plural noun.
pub fn push_counted(s: &mut String, count: usize, singular: &str, plural: &str)
    ensures
        final(s)@ == old(s)@ + counted(count as nat, singular@, plural@),
{
    push_dec(s, count as u64);
    push_char(s, ' ');
    if count == 1 {
        push_str(s, singular);
    } else {
        push_str(s, plural);
    }
    assert(final(s)@ =~= old(s)@ + counted(count as nat, singular@, plural@));
}

/// Concatenate a list of strings.
pub fn concat_all(pieces: &Vec<String>) -> (r: String)
    ensures
        r@ == concat(pieces@.map_values(|p: String| p@)),
{
    let mut r = String::new();
    let ghost views = pieces@.map_values(|p: String| p@);
    for i in 0..pieces.len()
        invariant
            views == pieces@.map_values(|p: String| p@),
            r@ == concat(views.take(i as int)),
    {
        assert(views.take(i + 1).drop_last() =~= views.take(i as int));
        push_str(&mut r, pieces[i].as_str());
    }
    assert(views.take(pieces.len() as int) =~= views);
    r
}

/// Join a list of strings with a separator.
pub fn join_all(pieces: &Vec<String>, sep: &str) -> (r: String)
    ensures
        r@ == join(pieces@.map_values(|p: String| p@), sep@),
{
    let mut r = String::new();
    let ghost views = pieces@.map_values(|p: String| p@);
    for i in 0..pieces.len()
        invariant
            views == pieces@.map_values(|p: String| p@),
            r@ == join(views.take(i as int), sep@),
    {
        assert(views.take(i + 1).drop_last() =~= views.take(i as int));
        if i > 0 {
            push_str(&mut r, sep);
        } else {
            assert(r@ =~= Seq::<char>::empty());
        }
        push_str(&mut r, pieces[i].as_str());
    }
    assert(views.take(pieces.len() as int) =~= views);
    r
}

/// The characters of a string slice.
pub fn chars_of(s: &str) -> (v: Vec<char>)
    ensures
        v@ == s@,
{
    let mut v: Vec<char> = Vec::new();
    for c in it: s.chars()
        invariant
            v@ == it.seq().take(it.index() as int),
            it.seq() == s@,
    {
        v.push(c);
    }
    v
}

/// Code-point lexicographic comparison of two character vectors.
fn chars_lt(a: &Vec<char>, b: &Vec<char>) -> (r: bool)
    ensures
        r == seq_lt(a@, b@),
{
    let mut i: usize = 0;
    while i < a.len() && i < b.len() && a[i] == b[i]
        invariant
            i <= a.len(),
            i <= b.len(),
            a@.take(i as int) == b@.take(i as int),
        decreases a.len() - i,
    {
        assert(a@.take(i + 1) =~= a@.take(i as int).push(a@[i as int]));
        assert(b@.take(i + 1) =~= b@.take(i as int).push(b@[i as int]));
        i += 1;
    }
    proof {
        lemma_lt_common_prefix(a@, b@, i as int);
    }
    if i == a.len() {
        i < b.len()
    } else if i == b.len() {
        false
    } else {
        a[i] < b[i]
    }
}

/// Comparing two sequences with a common prefix of length `i` reduces to
/// comparing what follows the prefix.
proof fn lemma_lt_common_prefix(a: Seq<char>, b: Seq<char>, i: int)
    requires
        0 <= i <= a.len(),
        i <= b.len(),
        a.take(i) == b.take(i),
    ensures
        seq_lt(a, b) == seq_lt(a.skip(i), b.skip(i)),
    decreases i,
{
    if i > 0 {
        assert(a[0] == a.take(i)[0]);
        assert(b[0] == b.take(i)[0]);
        assert(a.drop_first().take(i - 1) =~= a.take(i).drop_first());
        assert(b.drop_first().take(i - 1) =~= b.take(i).drop_first());
        lemma_lt_common_prefix(a.drop_first(), b.drop_first(), i - 1);
        assert(a.drop_first().skip(i - 1) =~= a.skip(i));
        assert(b.drop_first().skip(i - 1) =~= b.skip(i));
    } else {
        assert(a.skip(0) =~= a);
        assert(b.skip(0) =~= b);
    }
}

/// Code-point lexicographic comparison of two strings.
pub fn str_lt(a: &str, b: &str) -> (r: bool)
    ensures
        r == seq_lt(a@, b@),
{
    let va = chars_of(a);
    let vb = chars_of(b);
    chars_lt(&va, &vb)
}

/// Equality of two string slices.
pub fn str_eq(a: &str, b: &str) -> (r: bool)
    ensures
        r == (a@ == b@),
{
    let va = chars_of(a);
    let vb = chars_of(b);
    if va.len() != vb.len() {
        return false;
    }
    let mut i: usize = 0;
    while i < va.len()
        invariant
            va@ == a@,
            vb@ == b@,
            va@.len() == vb@.len(),
            i <= va.len(),
            forall|j: int| 0 <= j < i ==> va@[j] == vb@[j],
        decreases va.len() - i,
    {
        if va[i] != vb[i] {
            assert(va@[i as int] != vb@[i as int]);
            return false;
        }
        i += 1;
    }
    assert(va@ =~= vb@);
    true
}

/// Append each piece with a blank line before it (see [`blocks`]).
pub fn push_blocks(s: &mut String, pieces: &Vec<String>)
    ensures
        final(s)@ == old(s)@ + blocks(pieces@.map_values(|p: String| p@)),
{
    let ghost views = pieces@.map_values(|p: String| p@);
    let ghost start = s@;
    for i in 0..pieces.len()
        invariant
            views == pieces@.map_values(|p: String| p@),
            s@ == start + blocks(views.take(i as int)),
    {
        assert(views.take(i + 1).drop_last() =~= views.take(i as int));
        push_str(s, "\n");
        push_str(s, pieces[i].as_str());
        push_str(s, "\n");
        assert(s@ =~= start + blocks(views.take(i + 1)));
    }
    assert(views.take(pieces.len() as int) =~= views);
}

/// Append the decimal representation of a 128-bit `n`.
pub fn push_dec_wide(s: &mut String, n: u128)
    ensures
        final(s)@ == old(s)@ + dec(n as nat),
    decreases n,
{
    if n >= 10 {
        push_dec_wide(s, n / 10);
    }
    let d = digit((n % 10) as u64);
    push_char(s, d);
    assert(final(s)@ =~= old(s)@ + dec(n as nat));
}

/// Append a 128-bit `count` and the singular or plural noun.
pub fn push_counted_nat(s: &mut String, count: u128, singular: &str, plural: &str)
    ensures
        final(s)@ == old(s)@ + counted(count as nat, singular@, plural@),
{
    push_dec_wide(s, count);
    push_char(s, ' ');
    if count == 1 {
        push_str(s, singular);
    } else {
        push_str(s, plural);
    }
    assert(final(s)@ =~= old(s)@ + counted(count as nat, singular@, plural@));
}

/// A whitespace character (Unicode `White_Space`, as `str::trim` uses).
pub open spec fn is_space(c: char) -> bool {
    ||| ('\u{9}' <= c && c <= '\u{d}')
    ||| c == ' '
    ||| c == '\u{85}'
    ||| c == '\u{a0}'
    ||| c == '\u{1680}'
    ||| ('\u{2000}' <= c && c <= '\u{200a}')
    ||| c == '\u{2028}'
    ||| c == '\u{2029}'
    ||| c == '\u{202f}'
    ||| c == '\u{205f}'
    ||| c == '\u{3000}'
}

/// The first index at or after `i` that is not whitespace.
pub open spec fn skip_space(s: Seq<char>, i: int) -> int
    decreases s.len() - i,
{
    if 0 <= i < s.len() && is_space(s[i]) {
        skip_space(s, i + 1)
    } else {
        i
    }
}

/// The end of `s[lo..j]` with trailing whitespace removed.
pub open spec fn back_space(s: Seq<char>, lo: int, j: int) -> int
    decreases j - lo,
{
    if lo < j && j <= s.len() && is_space(s[j - 1]) {
        back_space(s, lo, j - 1)
    } else {
        j
    }
}

/// `s` without leading and trailing whitespace.
pub open spec fn trim(s: Seq<char>) -> Seq<char> {
    let a = skip_space(s, 0);
    s.subrange(a, back_space(s, a, s.len() as int))
}

/// Whether a character is whitespace (see [`is_space`]).
pub fn space(c: char) -> (r: bool)
    ensures
        r == is_space(c),
{
    ('\u{9}' <= c && c <= '\u{d}') || c == ' ' || c == '\u{85}' || c == '\u{a0}' || c == '\u{1680}' || (
    '\u{2000}' <= c && c <= '\u{200a}') || c == '\u{2028}' || c == '\u{2029}' || c == '\u{202f}' || c
        == '\u{205f}' || c == '\u{3000}'
}

/// The characters `v[lo..hi]`.
pub fn slice(v: &Vec<char>, lo: usize, hi: usize) -> (r: Vec<char>)
    requires
        lo <= hi <= v@.len(),
    ensures
        r@ == v@.subrange(lo as int, hi as int),
{
    let mut r: Vec<char> = Vec::new();
    for i in lo..hi
        invariant
            lo <= hi <= v@.len(),
            r@ == v@.subrange(lo as int, i as int),
    {
        r.push(v[i]);
        assert(r@ =~= v@.subrange(lo as int, i + 1));
    }
    r
}

/// `v` without leading and trailing whitespace.
pub fn trim_chars(v: &Vec<char>) -> (r: Vec<char>)
    ensures
        r@ == trim(v@),
{
    let mut a: usize = 0;
    while a < v.len() && space(v[a])
        invariant
            a <= v@.len(),
            skip_space(v@, a as int) == skip_space(v@, 0),
        decreases v@.len() - a,
    {
        a = a + 1;
    }
    let mut b: usize = v.len();
    while b > a && space(v[b - 1])
        invariant
            a <= b <= v@.len(),
            a == skip_space(v@, 0),
            back_space(v@, a as int, b as int) == back_space(v@, a as int, v@.len() as int),
        decreases b - a,
    {
        b = b - 1;
    }
    slice(v, a, b)
}

/// A string holding the given characters.
pub fn collect(v: &Vec<char>) -> (r: String)
    ensures
        r@ == v@,
{
    let mut s = String::new();
    for i in 0..v.len()
        invariant
            s@ == v@.subrange(0, i as int),
    {
        push_char(&mut s, v[i]);
        assert(s@ =~= v@.subrange(0, i + 1));
    }
    assert(v@.subrange(0, v@.len() as int) =~= v@);
    s
}

} // verus!
