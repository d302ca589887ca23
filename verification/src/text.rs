//! Strings as sequences of characters: the text operations that the rest of the library is built
//! on, each with its meaning as a function on `Seq<char>`.

use vstd::prelude::*;
use vstd::utf8::{decode_utf8, encode_utf8, valid_utf8};

verus! {

// ── Models ──────────────────────────────────────────────────────────────────

/// The views of a list of strings.
pub open spec fn views(v: Seq<String>) -> Seq<Seq<char>> {
    Seq::new(v.len(), |i: int| v[i]@)
}

/// The views of a list of string slices.
pub open spec fn slice_views(v: Seq<&str>) -> Seq<Seq<char>> {
    Seq::new(v.len(), |i: int| v[i]@)
}

/// The view of an optional string.
pub open spec fn opt_view(o: Option<String>) -> Option<Seq<char>> {
    match o {
        Some(s) => Some(s@),
        None => None,
    }
}

/// `p` stands in `s` at position `i`.
pub open spec fn occurs_at(s: Seq<char>, p: Seq<char>, i: int) -> bool {
    0 <= i && i + p.len() <= s.len() && s.subrange(i, i + p.len()) == p
}

/// Position of the first occurrence of `p` in `s` at or after `i`.
pub open spec fn find_from(s: Seq<char>, p: Seq<char>, i: int) -> Option<int>
    decreases s.len() - i + 1,
{
    if i + p.len() > s.len() {
        None
    } else if occurs_at(s, p, i) {
        Some(i)
    } else {
        find_from(s, p, i + 1)
    }
}

/// Position of the first occurrence of `p` in `s`.
pub open spec fn find(s: Seq<char>, p: Seq<char>) -> Option<int> {
    find_from(s, p, 0)
}

/// Position of the last occurrence of `p` in `s` that starts at or before `i`.
pub open spec fn rfind_from(s: Seq<char>, p: Seq<char>, i: int) -> Option<int>
    decreases i + 1,
{
    if i < 0 {
        None
    } else if occurs_at(s, p, i) {
        Some(i)
    } else {
        rfind_from(s, p, i - 1)
    }
}

/// Position of the last occurrence of `p` in `s`.
pub open spec fn rfind(s: Seq<char>, p: Seq<char>) -> Option<int> {
    rfind_from(s, p, s.len() as int)
}

/// `p` occurs somewhere in `s`.
pub open spec fn contains(s: Seq<char>, p: Seq<char>) -> bool {
    exists|i: int| occurs_at(s, p, i)
}

/// `s` begins with `p`.
pub open spec fn starts_with(s: Seq<char>, p: Seq<char>) -> bool {
    p.len() <= s.len() && s.take(p.len() as int) == p
}

/// `s` ends with `p`.
pub open spec fn ends_with(s: Seq<char>, p: Seq<char>) -> bool {
    p.len() <= s.len() && s.skip(s.len() - p.len()) == p
}

/// Position of the first `c` in `s`, or the length of `s` where there is none.
pub open spec fn char_index(s: Seq<char>, c: char) -> int
    decreases s.len(),
{
    if s.len() == 0 {
        0
    } else if s[0] == c {
        0
    } else {
        1 + char_index(s.drop_first(), c)
    }
}

/// Position of the last `c` in `s`, or -1 where there is none.
pub open spec fn last_char_index(s: Seq<char>, c: char) -> int
    decreases s.len(),
{
    if s.len() == 0 {
        -1
    } else if s.last() == c {
        s.len() - 1
    } else {
        last_char_index(s.drop_last(), c)
    }
}

/// A character that Unicode counts as white space.
pub open spec fn is_space(c: char) -> bool {
    let n = c as u32;
    ||| 0x9 <= n <= 0xd
    ||| n == 0x20
    ||| n == 0x85
    ||| n == 0xa0
    ||| n == 0x1680
    ||| 0x2000 <= n <= 0x200a
    ||| n == 0x2028
    ||| n == 0x2029
    ||| n == 0x202f
    ||| n == 0x205f
    ||| n == 0x3000
}

/// `s` without the white space at its start.
pub open spec fn trim_start(s: Seq<char>) -> Seq<char>
    decreases s.len(),
{
    if s.len() > 0 && is_space(s[0]) {
        trim_start(s.drop_first())
    } else {
        s
    }
}

/// `s` without the white space at its end.
pub open spec fn trim_end(s: Seq<char>) -> Seq<char>
    decreases s.len(),
{
    if s.len() > 0 && is_space(s.last()) {
        trim_end(s.drop_last())
    } else {
        s
    }
}

/// `s` without the white space at both ends.
pub open spec fn trim(s: Seq<char>) -> Seq<char> {
    trim_end(trim_start(s))
}

/// `s` without one carriage return at its end.
pub open spec fn chop_cr(s: Seq<char>) -> Seq<char> {
    if s.len() > 0 && s.last() == '\r' {
        s.drop_last()
    } else {
        s
    }
}

/// The lines of a text: each ends at a line feed, which a carriage return may precede; the last
/// one may lack it.
pub open spec fn lines(s: Seq<char>) -> Seq<Seq<char>>
    decreases s.len(),
{
    if s.len() == 0 {
        Seq::empty()
    } else {
        let n = char_index(s, '\n');
        if 0 <= n < s.len() {
            seq![chop_cr(s.take(n))] + lines(s.skip(n + 1))
        } else {
            seq![s]
        }
    }
}

/// The pieces of `s` between the occurrences of `c`; one piece more than there are occurrences.
pub open spec fn split_on(s: Seq<char>, c: char) -> Seq<Seq<char>>
    decreases s.len(),
{
    let n = char_index(s, c);
    if 0 <= n < s.len() {
        seq![s.take(n)] + split_on(s.skip(n + 1), c)
    } else {
        seq![s]
    }
}

/// The parts in order with `sep` between neighbours.
pub open spec fn join(parts: Seq<Seq<char>>, sep: Seq<char>) -> Seq<char>
    decreases parts.len(),
{
    if parts.len() == 0 {
        Seq::empty()
    } else if parts.len() == 1 {
        parts[0]
    } else {
        join(parts.drop_last(), sep) + sep + parts.last()
    }
}

/// Strings in the order of their code points, which is the order of their UTF-8 bytes.
pub open spec fn lex_lt(a: Seq<char>, b: Seq<char>) -> bool
    decreases a.len(),
{
    if b.len() == 0 {
        false
    } else if a.len() == 0 {
        true
    } else if a[0] != b[0] {
        (a[0] as int) < (b[0] as int)
    } else {
        lex_lt(a.drop_first(), b.drop_first())
    }
}

/// The decimal digit of value `d`.
pub open spec fn digit(d: int) -> char {
    if d == 0 {
        '0'
    } else if d == 1 {
        '1'
    } else if d == 2 {
        '2'
    } else if d == 3 {
        '3'
    } else if d == 4 {
        '4'
    } else if d == 5 {
        '5'
    } else if d == 6 {
        '6'
    } else if d == 7 {
        '7'
    } else if d == 8 {
        '8'
    } else {
        '9'
    }
}

/// `n` in decimal, without leading zeros.
pub open spec fn decimal(n: nat) -> Seq<char>
    decreases n,
{
    if n < 10 {
        seq![digit(n as int)]
    } else {
        decimal(n / 10).push(digit((n % 10) as int))
    }
}

/// `n` copies of `c`.
pub open spec fn fill(c: char, n: int) -> Seq<char> {
    Seq::new(
        if n > 0 {
            n as nat
        } else {
            0
        },
        |i: int| c,
    )
}

/// `s` preceded by as many spaces as it lacks to `width` characters.
pub open spec fn pad_left(s: Seq<char>, width: int) -> Seq<char> {
    fill(' ', width - s.len()) + s
}

/// `s` followed by as many spaces as it lacks to `width` characters.
pub open spec fn pad_right(s: Seq<char>, width: int) -> Seq<char> {
    s + fill(' ', width - s.len())
}

/// The small form of an ASCII capital; any other character as it is.
pub open spec fn ascii_lower(c: char) -> char {
    if 'A' as u32 <= c as u32 && c as u32 <= 'Z' as u32 {
        ((c as u32 + 32) as u8) as char
    } else {
        c
    }
}

/// Equal but for the case of ASCII letters.
pub open spec fn eq_no_case(a: Seq<char>, b: Seq<char>) -> bool {
    a.len() == b.len() && forall|i: int| 0 <= i < a.len() ==> ascii_lower(#[trigger] a[i]) == ascii_lower(b[i])
}

/// Number of bytes of `s` in UTF-8.
pub open spec fn byte_len(s: Seq<char>) -> usize {
    encode_utf8(s).len() as usize
}

/// Number of UTF-16 units of a character.
pub open spec fn unit_count(c: char) -> int {
    if c as u32 > 0xffff {
        2
    } else {
        1
    }
}

/// Number of UTF-16 units of a text.
pub open spec fn utf16_len(s: Seq<char>) -> int
    decreases s.len(),
{
    if s.len() == 0 {
        0
    } else {
        utf16_len(s.drop_last()) + unit_count(s.last())
    }
}

/// Number of characters of the longest prefix of `s` that has at most `n` UTF-16 units.
pub open spec fn utf16_cut(s: Seq<char>, n: int) -> int
    decreases s.len(),
{
    if s.len() == 0 || utf16_len(s) <= n {
        s.len() as int
    } else {
        utf16_cut(s.drop_last(), n)
    }
}

// ── Building and taking apart ───────────────────────────────────────────────

/// `String::push`: appends one character to a string.
#[verifier::external_body]
pub(crate) fn push_char(s: &mut String, c: char)
    ensures
        final(s)@ == old(s)@.push(c),
{
    s.push(c)
}

/// `String::from_utf8`: the text that bytes encode, where they are valid UTF-8.
#[verifier::external_body]
pub(crate) fn decode_text(bytes: Vec<u8>) -> (r: Option<String>)
    ensures
        match r {
            Some(s) => valid_utf8(bytes@) && s@ == decode_utf8(bytes@),
            None => !valid_utf8(bytes@),
        },
{
    String::from_utf8(bytes).ok()
}

/// The characters of `s`, in order.
pub fn chars_of(s: &str) -> (r: Vec<char>)
    ensures
        r@ == s@,
{
    let mut r: Vec<char> = Vec::new();
    for c in it: s.chars()
        invariant
            r@ == it.seq().take(it.index()),
            it.seq() == s@,
    {
        r.push(c);
        assert(it.seq().take(it.index() + 1) =~= it.seq().take(it.index()).push(c));
    }
    assert(s@.take(s@.len() as int) =~= s@);
    r
}

/// The characters from position `from` up to position `to` as a string.
pub fn string_of(v: &Vec<char>, from: usize, to: usize) -> (r: String)
    requires
        from <= to <= v@.len(),
    ensures
        r@ == v@.subrange(from as int, to as int),
{
    let mut r = String::new();
    let mut i: usize = from;
    while i < to
        invariant
            from <= i <= to <= v@.len(),
            r@ == v@.subrange(from as int, i as int),
        decreases to - i,
    {
        push_char(&mut r, v[i]);
        i = i + 1;
        assert(v@.subrange(from as int, i as int) =~= v@.subrange(from as int, i - 1).push(v@[i - 1]));
    }
    r
}

/// Whether two strings hold the same characters.
pub fn str_eq(a: &str, b: &str) -> (r: bool)
    ensures
        r == (a@ == b@),
{
    a.to_string() == b.to_string()
}

/// The strings of a list, borrowed.
pub fn slices<'a>(v: &'a Vec<String>) -> (r: Vec<&'a str>)
    ensures
        slice_views(r@) == views(v@),
{
    let mut r: Vec<&'a str> = Vec::new();
    let mut i: usize = 0;
    while i < v.len()
        invariant
            0 <= i <= v@.len(),
            r@.len() == i,
            forall|k: int| 0 <= k < i ==> (#[trigger] r@[k])@ == v@[k]@,
        decreases v@.len() - i,
    {
        r.push(v[i].as_str());
        i = i + 1;
    }
    assert(slice_views(r@) =~= views(v@));
    r
}

/// Whether `list` holds the string `s`.
pub fn list_contains(list: &Vec<String>, s: &str) -> (r: bool)
    ensures
        r == views(list@).contains(s@),
{
    let mut i: usize = 0;
    while i < list.len()
        invariant
            0 <= i <= list@.len(),
            forall|k: int| 0 <= k < i ==> views(list@)[k] != s@,
        decreases list@.len() - i,
    {
        if str_eq(list[i].as_str(), s) {
            assert(views(list@)[i as int] == s@);
            return true;
        }
        i = i + 1;
    }
    false
}

/// Appends `n` in decimal.
pub fn push_decimal(out: &mut String, n: u64)
    ensures
        final(out)@ == old(out)@ + decimal(n as nat),
    decreases n,
{
    if n >= 10 {
        push_decimal(out, n / 10);
    }
    push_char(out, digit_char(n % 10));
    assert(final(out)@ =~= old(out)@ + decimal(n as nat));
}

/// The decimal digit of value `d`.
pub fn digit_char(d: u64) -> (c: char)
    requires
        d < 10,
    ensures
        c == digit(d as int),
{
    if d == 0 {
        '0'
    } else if d == 1 {
        '1'
    } else if d == 2 {
        '2'
    } else if d == 3 {
        '3'
    } else if d == 4 {
        '4'
    } else if d == 5 {
        '5'
    } else if d == 6 {
        '6'
    } else if d == 7 {
        '7'
    } else if d == 8 {
        '8'
    } else {
        '9'
    }
}

/// `n` in decimal.
pub fn decimal_of(n: u64) -> (r: String)
    ensures
        r@ == decimal(n as nat),
{
    let mut r = String::new();
    push_decimal(&mut r, n);
    assert(r@ =~= decimal(n as nat));
    r
}

/// Number of digits of `n` in decimal.
pub fn digit_count(n: u128) -> (r: usize)
    ensures
        r == decimal(n as nat).len(),
        1 <= r <= 39,
{
    let mut left: u128 = n;
    proof {
        reveal_with_fuel(pow10, 40);
    }
    let mut r: usize = 1;
    let ghost mut tens: nat = 39;
    while left >= 10
        invariant
            1 <= r <= 39,
            decimal(n as nat).len() == (r - 1) + decimal(left as nat).len(),
            r + tens == 40,
            left < pow10(tens),
        decreases left,
    {
        proof {
            assert(tens > 1) by {
                if tens <= 1 {
                    reveal_with_fuel(pow10, 3);
                }
            }
            assert(pow10(tens) == 10 * pow10((tens - 1) as nat));
            tens = (tens - 1) as nat;
        }
        left = left / 10;
        r = r + 1;
    }
    r
}

/// Ten to the power of `n`.
pub open spec fn pow10(n: nat) -> nat
    decreases n,
{
    if n == 0 {
        1
    } else {
        10 * pow10((n - 1) as nat)
    }
}

/// Appends `n` copies of `c`.
pub fn push_fill(out: &mut String, c: char, n: usize)
    ensures
        final(out)@ == old(out)@ + fill(c, n as int),
{
    let mut i: usize = 0;
    assert(out@ =~= old(out)@ + fill(c, 0));
    while i < n
        invariant
            0 <= i <= n,
            out@ == old(out)@ + fill(c, i as int),
        decreases n - i,
    {
        push_char(out, c);
        i = i + 1;
        assert(old(out)@ + fill(c, i as int) =~= (old(out)@ + fill(c, i - 1)).push(c));
    }
}

/// Number of characters of `s`.
pub fn char_count(s: &str) -> (n: usize)
    ensures
        n == s@.len(),
{
    s.unicode_len()
}

/// `s`, followed by the spaces that it lacks to `width` characters.
pub fn padded_right(s: &str, width: usize) -> (r: String)
    ensures
        r@ == pad_right(s@, width as int),
{
    let mut r = String::new();
    push_padded_right(&mut r, s, width);
    assert(r@ =~= pad_right(s@, width as int));
    r
}

/// Appends `s`, preceded by the spaces that it lacks to `width` characters.
pub fn push_padded_left(out: &mut String, s: &str, width: usize)
    ensures
        final(out)@ == old(out)@ + pad_left(s@, width as int),
{
    let n: usize = char_count(s);
    if n < width {
        push_fill(out, ' ', width - n);
    }
    out.append(s);
    assert(final(out)@ =~= old(out)@ + pad_left(s@, width as int));
}

/// Appends `s`, followed by the spaces that it lacks to `width` characters.
pub fn push_padded_right(out: &mut String, s: &str, width: usize)
    ensures
        final(out)@ == old(out)@ + pad_right(s@, width as int),
{
    let n: usize = char_count(s);
    out.append(s);
    if n < width {
        push_fill(out, ' ', width - n);
    }
    assert(final(out)@ =~= old(out)@ + pad_right(s@, width as int));
}

// ── Searching ───────────────────────────────────────────────────────────────

/// Whether `p` stands in `s` at position `i`.
pub fn matches_at(s: &Vec<char>, p: &Vec<char>, i: usize) -> (r: bool)
    ensures
        r == occurs_at(s@, p@, i as int),
{
    if p.len() > s.len() || i > s.len() - p.len() {
        return false;
    }
    let mut k: usize = 0;
    while k < p.len()
        invariant
            0 <= k <= p@.len(),
            i + p.len() <= s.len(),
            forall|j: int| 0 <= j < k ==> s@[i + j] == p@[j],
        decreases p@.len() - k,
    {
        if s[i + k] != p[k] {
            assert(s@.subrange(i as int, i + p@.len())[k as int] != p@[k as int]);
            return false;
        }
        k = k + 1;
    }
    assert(s@.subrange(i as int, i + p@.len()) =~= p@);
    true
}

/// Position of the first occurrence of `p` in `s` at or after `from`.
pub fn find_chars(s: &Vec<char>, p: &Vec<char>, from: usize) -> (r: Option<usize>)
    requires
        from <= s@.len(),
    ensures
        match r {
            Some(i) => find_from(s@, p@, from as int) == Some(i as int),
            None => find_from(s@, p@, from as int) is None,
        },
        r matches Some(i) ==> from <= i && i + p@.len() <= s@.len(),
{
    if p.len() > s.len() {
        return None;
    }
    let last: usize = s.len() - p.len();
    if from > last {
        return None;
    }
    let mut i: usize = from;
    loop
        invariant
            last == s@.len() - p@.len(),
            from <= i <= last,
            find_from(s@, p@, from as int) == find_from(s@, p@, i as int),
        decreases last - i,
    {
        if matches_at(s, p, i) {
            return Some(i);
        }
        if i == last {
            assert(find_from(s@, p@, i + 1) is None);
            return None;
        }
        i = i + 1;
    }
}

/// Position of the last occurrence of `p` in `s`.
pub fn rfind_chars(s: &Vec<char>, p: &Vec<char>) -> (r: Option<usize>)
    ensures
        match r {
            Some(i) => rfind(s@, p@) == Some(i as int),
            None => rfind(s@, p@) is None,
        },
        r matches Some(i) ==> i + p@.len() <= s@.len(),
{
    let mut i: usize = s.len();
    loop
        invariant
            i <= s@.len(),
            rfind(s@, p@) == rfind_from(s@, p@, i as int),
        decreases i,
    {
        if matches_at(s, p, i) {
            return Some(i);
        }
        if i == 0 {
            assert(rfind_from(s@, p@, -1) is None);
            return None;
        }
        i = i - 1;
    }
}

/// Finding from `i` on gives the least position of an occurrence at or after `i`.
pub proof fn find_is_first(s: Seq<char>, p: Seq<char>, i: int)
    requires
        0 <= i,
    ensures
        match find_from(s, p, i) {
            Some(k) => i <= k && occurs_at(s, p, k) && forall|j: int|
                i <= j < k ==> !#[trigger] occurs_at(s, p, j),
            None => forall|j: int| i <= j ==> !#[trigger] occurs_at(s, p, j),
        },
    decreases s.len() - i + 1,
{
    if i + p.len() <= s.len() && !occurs_at(s, p, i) {
        find_is_first(s, p, i + 1);
    }
}

/// Finding backwards from `i` gives the greatest position of an occurrence at or before `i`.
pub proof fn rfind_is_last(s: Seq<char>, p: Seq<char>, i: int)
    ensures
        match rfind_from(s, p, i) {
            Some(k) => k <= i && occurs_at(s, p, k) && forall|j: int|
                k < j <= i ==> !#[trigger] occurs_at(s, p, j),
            None => forall|j: int| j <= i ==> !#[trigger] occurs_at(s, p, j),
        },
    decreases i + 1,
{
    if i >= 0 && !occurs_at(s, p, i) {
        rfind_is_last(s, p, i - 1);
    }
}

/// Whether `p` occurs in `s`.
pub fn str_contains(s: &str, p: &str) -> (r: bool)
    ensures
        r == contains(s@, p@),
{
    let sc = chars_of(s);
    let pc = chars_of(p);
    let found = find_chars(&sc, &pc, 0);
    proof {
        find_is_first(s@, p@, 0);
        if let Some(k) = find(s@, p@) {
            assert(occurs_at(s@, p@, k));
        }
    }
    found.is_some()
}

/// Whether the character `c` occurs in `s`.
pub fn str_contains_char(s: &str, c: char) -> (r: bool)
    ensures
        r == s@.contains(c),
{
    let sc = chars_of(s);
    let mut i: usize = 0;
    while i < sc.len()
        invariant
            0 <= i <= sc@.len(),
            sc@ == s@,
            forall|k: int| 0 <= k < i ==> sc@[k] != c,
        decreases sc@.len() - i,
    {
        if sc[i] == c {
            assert(s@[i as int] == c);
            return true;
        }
        i = i + 1;
    }
    false
}

/// Whether `s` begins with `p`.
pub fn str_starts_with(s: &str, p: &str) -> (r: bool)
    ensures
        r == starts_with(s@, p@),
{
    let sc = chars_of(s);
    let pc = chars_of(p);
    let r = matches_at(&sc, &pc, 0);
    proof {
        if p@.len() <= s@.len() {
            assert(s@.subrange(0, p@.len() as int) =~= s@.take(p@.len() as int));
        }
    }
    r
}

/// Whether `s` ends with `p`.
pub fn str_ends_with(s: &str, p: &str) -> (r: bool)
    ensures
        r == ends_with(s@, p@),
{
    let sc = chars_of(s);
    let pc = chars_of(p);
    if pc.len() > sc.len() {
        return false;
    }
    let r = matches_at(&sc, &pc, sc.len() - pc.len());
    assert(s@.subrange(s@.len() - p@.len(), s@.len() as int) =~= s@.skip(s@.len() - p@.len()));
    r
}

/// What follows `p` at the start of `s`.
pub fn str_strip_prefix(s: &str, p: &str) -> (r: Option<String>)
    ensures
        match r {
            Some(rest) => starts_with(s@, p@) && rest@ == s@.skip(p@.len() as int),
            None => !starts_with(s@, p@),
        },
{
    if str_starts_with(s, p) {
        let sc = chars_of(s);
        let n: usize = char_count(p);
        let rest = string_of(&sc, n, sc.len());
        assert(s@.subrange(n as int, s@.len() as int) =~= s@.skip(n as int));
        Some(rest)
    } else {
        None
    }
}

/// The first `c` is where `char_index` says, and nowhere where it gives the length.
pub proof fn char_index_is_first(s: Seq<char>, c: char)
    ensures
        0 <= char_index(s, c) <= s.len(),
        char_index(s, c) < s.len() ==> s[char_index(s, c)] == c,
        forall|j: int| 0 <= j < char_index(s, c) ==> s[j] != c,
    decreases s.len(),
{
    if s.len() > 0 && s[0] != c {
        let t = s.drop_first();
        char_index_is_first(t, c);
        assert forall|j: int| 0 <= j < char_index(s, c) implies s[j] != c by {
            if j > 0 {
                assert(t[j - 1] == s[j]);
            }
        }
    }
}

/// A `c` behind a piece without one is the first.
pub proof fn char_index_after(a: Seq<char>, b: Seq<char>, c: char)
    requires
        !a.contains(c),
    ensures
        char_index(a + seq![c] + b, c) == a.len(),
{
    let s = a + seq![c] + b;
    char_index_is_first(s, c);
    let k = char_index(s, c);
    assert(s[a.len() as int] == c);
    if k < a.len() {
        assert(a[k] == s[k]);
        assert(a.contains(c));
    }
}

/// A join starts with its first part.
pub proof fn join_front(parts: Seq<Seq<char>>, sep: Seq<char>)
    requires
        parts.len() >= 2,
    ensures
        join(parts, sep) == parts[0] + sep + join(parts.drop_first(), sep),
    decreases parts.len(),
{
    let rest = parts.drop_first();
    if parts.len() == 2 {
        assert(parts.drop_last() =~= seq![parts[0]]);
        assert(join(parts.drop_last(), sep) == parts[0]);
        assert(rest[0] == parts[1]);
    } else {
        let init = parts.drop_last();
        join_front(init, sep);
        assert(init.drop_first() =~= rest.drop_last());
        assert(rest.last() == parts.last());
        assert(join(parts, sep) =~= parts[0] + sep + join(rest, sep));
    }
}

/// Position of the first `c` at or after `from`, or the length where there is none.
pub fn index_of_char(s: &Vec<char>, c: char, from: usize) -> (r: usize)
    requires
        from <= s@.len(),
    ensures
        from <= r <= s@.len(),
        r == from + char_index(s@.skip(from as int), c),
{
    let mut i: usize = from;
    assert(s@.skip(from as int) =~= s@.skip(i as int));
    while i < s.len() && s[i] != c
        invariant
            from <= i <= s@.len(),
            from + char_index(s@.skip(from as int), c) == i + char_index(s@.skip(i as int), c),
        decreases s@.len() - i,
    {
        assert(s@.skip(i as int).drop_first() =~= s@.skip(i + 1));
        i = i + 1;
    }
    i
}

/// Position of the last `c`.
pub fn last_index_of_char(s: &Vec<char>, c: char) -> (r: Option<usize>)
    ensures
        match r {
            Some(i) => i < s@.len() && last_char_index(s@, c) == i,
            None => last_char_index(s@, c) == -1,
        },
{
    let mut i: usize = s.len();
    assert(s@.take(i as int) =~= s@);
    while i > 0
        invariant
            0 <= i <= s@.len(),
            last_char_index(s@, c) == last_char_index(s@.take(i as int), c),
        decreases i,
    {
        assert(s@.take(i as int).drop_last() =~= s@.take(i - 1));
        i = i - 1;
        if s[i] == c {
            return Some(i);
        }
    }
    None
}

/// The last `c` is where `last_char_index` says, and nowhere where it gives -1.
pub proof fn last_char_index_is_last(s: Seq<char>, c: char)
    ensures
        -1 <= last_char_index(s, c) < s.len(),
        last_char_index(s, c) >= 0 ==> s[last_char_index(s, c)] == c,
        forall|j: int| last_char_index(s, c) < j < s.len() ==> s[j] != c,
    decreases s.len(),
{
    if s.len() > 0 && s.last() != c {
        last_char_index_is_last(s.drop_last(), c);
        assert forall|j: int| last_char_index(s, c) < j < s.len() implies s[j] != c by {
            if j < s.len() - 1 {
                assert(s.drop_last()[j] == s[j]);
            }
        }
    }
}

// ── Trimming and splitting ──────────────────────────────────────────────────

/// Whether Unicode counts `c` as white space.
pub fn char_is_space(c: char) -> (r: bool)
    ensures
        r == is_space(c),
{
    let n: u32 = c as u32;
    (0x9 <= n && n <= 0xd) || n == 0x20 || n == 0x85 || n == 0xa0 || n == 0x1680 || (0x2000 <= n && n <= 0x200a)
        || n == 0x2028 || n == 0x2029 || n == 0x202f || n == 0x205f || n == 0x3000
}

/// Number of white space characters at the start.
fn leading_space(v: &Vec<char>) -> (n: usize)
    ensures
        n <= v@.len(),
        trim_start(v@) == v@.skip(n as int),
{
    let mut i: usize = 0;
    assert(v@.skip(0) =~= v@);
    while i < v.len() && char_is_space(v[i])
        invariant
            0 <= i <= v@.len(),
            trim_start(v@) == trim_start(v@.skip(i as int)),
        decreases v@.len() - i,
    {
        assert(v@.skip(i as int).drop_first() =~= v@.skip(i + 1));
        i = i + 1;
    }
    i
}

/// End of what is left of `v` from `from` on when the white space at its end is gone.
fn trailing_space(v: &Vec<char>, from: usize) -> (n: usize)
    requires
        from <= v@.len(),
    ensures
        from <= n <= v@.len(),
        trim_end(v@.skip(from as int)) == v@.subrange(from as int, n as int),
{
    let mut i: usize = v.len();
    assert(v@.skip(from as int) =~= v@.subrange(from as int, i as int));
    while i > from && char_is_space(v[i - 1])
        invariant
            from <= i <= v@.len(),
            trim_end(v@.skip(from as int)) == trim_end(v@.subrange(from as int, i as int)),
        decreases i,
    {
        assert(v@.subrange(from as int, i as int).drop_last() =~= v@.subrange(from as int, i - 1));
        i = i - 1;
    }
    assert(i > from ==> v@.subrange(from as int, i as int).last() == v@[i - 1]);
    i
}

/// `s` without the white space at both ends.
pub fn str_trim(s: &str) -> (r: String)
    ensures
        r@ == trim(s@),
{
    let v = chars_of(s);
    let a: usize = leading_space(&v);
    let b: usize = trailing_space(&v, a);
    string_of(&v, a, b)
}

/// `s` without the white space at its end.
pub fn str_trim_end(s: &str) -> (r: String)
    ensures
        r@ == trim_end(s@),
{
    let v = chars_of(s);
    let b: usize = trailing_space(&v, 0);
    assert(v@.skip(0) =~= v@);
    string_of(&v, 0, b)
}

/// `s` without the white space at its start.
pub fn str_trim_start(s: &str) -> (r: String)
    ensures
        r@ == trim_start(s@),
{
    let v = chars_of(s);
    let a: usize = leading_space(&v);
    assert(v@.skip(a as int) =~= v@.subrange(a as int, v@.len() as int));
    string_of(&v, a, v.len())
}

/// The lines of a text.
pub fn split_lines(s: &str) -> (r: Vec<String>)
    ensures
        views(r@) == lines(s@),
{
    let v = chars_of(s);
    let mut r: Vec<String> = Vec::new();
    let mut i: usize = 0;
    assert(v@.skip(0) =~= v@);
    assert(views(r@) + lines(v@.skip(0)) =~= lines(v@));
    while i < v.len()
        invariant
            0 <= i <= v@.len(),
            views(r@) + lines(v@.skip(i as int)) == lines(v@),
        decreases v@.len() - i,
    {
        let ghost rest = v@.skip(i as int);
        let n: usize = index_of_char(&v, '\n', i);
        let ghost before = r@;
        if n < v.len() {
            let ghost piece = rest.take(n - i);
            let mut end: usize = n;
            if end > i && v[end - 1] == '\r' {
                end = end - 1;
            }
            assert(v@.subrange(i as int, end as int) =~= chop_cr(piece));
            let line = string_of(&v, i, end);
            r.push(line);
            assert(rest.skip(n - i + 1) =~= v@.skip(n + 1));
            assert(views(r@) =~= views(before) + seq![chop_cr(piece)]);
            assert(views(r@) + lines(v@.skip(n + 1)) =~= views(before) + (seq![chop_cr(piece)] + lines(
                v@.skip(n + 1),
            )));
            i = n + 1;
        } else {
            let line = string_of(&v, i, n);
            assert(v@.subrange(i as int, n as int) =~= rest);
            r.push(line);
            assert(views(r@) =~= views(before) + seq![rest]);
            assert(v@.skip(n as int) =~= Seq::empty());
            assert(views(r@) + lines(v@.skip(n as int)) =~= views(r@));
            i = n;
        }
    }
    assert(v@.skip(i as int) =~= Seq::empty());
    assert(views(r@) + lines(v@.skip(i as int)) =~= views(r@));
    r
}

/// The pieces of `s` between the occurrences of `c`.
pub fn split_char(s: &str, c: char) -> (r: Vec<String>)
    ensures
        views(r@) == split_on(s@, c),
{
    let v = chars_of(s);
    let mut r: Vec<String> = Vec::new();
    let mut i: usize = 0;
    assert(v@.skip(0) =~= v@);
    assert(views(r@) + split_on(v@.skip(0), c) =~= split_on(v@, c));
    loop
        invariant
            0 <= i <= v@.len(),
            v@ == s@,
            views(r@) + split_on(v@.skip(i as int), c) == split_on(v@, c),
        decreases v@.len() - i,
    {
        let ghost rest = v@.skip(i as int);
        let n: usize = index_of_char(&v, c, i);
        let ghost before = r@;
        let piece = string_of(&v, i, n);
        assert(v@.subrange(i as int, n as int) =~= rest.take(n - i));
        r.push(piece);
        assert(views(r@) =~= views(before) + seq![rest.take(n - i)]);
        if n == v.len() {
            assert(rest.take(n - i) =~= rest);
            return r;
        }
        assert(rest.skip(n - i + 1) =~= v@.skip(n + 1));
        assert(views(r@) + split_on(v@.skip(n + 1), c) =~= views(before) + (seq![rest.take(n - i)] + split_on(
            v@.skip(n + 1),
            c,
        )));
        i = n + 1;
    }
}

/// The parts in order with `sep` between neighbours.
pub fn join_strings(parts: &Vec<String>, sep: &str) -> (r: String)
    ensures
        r@ == join(views(parts@), sep@),
{
    let mut r = String::new();
    let mut i: usize = 0;
    let ghost all = views(parts@);
    while i < parts.len()
        invariant
            0 <= i <= parts@.len(),
            all == views(parts@),
            r@ == join(all.take(i as int), sep@),
        decreases parts@.len() - i,
    {
        if i > 0 {
            r.append(sep);
        }
        r.append(parts[i].as_str());
        i = i + 1;
        assert(all.take(i as int).drop_last() =~= all.take(i - 1));
        assert(all.take(i as int).last() == parts@[i - 1]@);
        if i == 1 {
            assert(r@ =~= all.take(1)[0]);
        }
    }
    assert(all.take(all.len() as int) =~= all);
    r
}

// ── Comparing and measuring ─────────────────────────────────────────────────

/// The code point of a character.
fn code_point(c: char) -> (r: u32)
    ensures
        r as int == c as int,
{
    c as u32
}

/// Of two strings exactly one comes first, unless they are equal.
pub proof fn lex_is_total(a: Seq<char>, b: Seq<char>)
    ensures
        lex_lt(a, b) ==> !lex_lt(b, a),
        !lex_lt(a, b) && !lex_lt(b, a) ==> a == b,
        !lex_lt(a, a),
    decreases a.len(),
{
    if a.len() > 0 && b.len() > 0 {
        lex_is_total(a.drop_first(), b.drop_first());
        assert(a =~= seq![a[0]] + a.drop_first());
        assert(b =~= seq![b[0]] + b.drop_first());
    } else if a.len() > 0 {
        lex_is_total(a.drop_first(), a.drop_first());
    } else if b.len() == 0 {
        assert(a =~= b);
    }
}

/// The order of strings is transitive.
pub proof fn lex_is_transitive(a: Seq<char>, b: Seq<char>, c: Seq<char>)
    ensures
        lex_lt(a, b) && lex_lt(b, c) ==> lex_lt(a, c),
    decreases a.len(),
{
    if a.len() > 0 && b.len() > 0 && c.len() > 0 {
        lex_is_transitive(a.drop_first(), b.drop_first(), c.drop_first());
    }
}

/// The order of strings is strict, total and transitive.
pub proof fn lex_is_order(a: Seq<char>, b: Seq<char>, c: Seq<char>)
    ensures
        lex_lt(a, b) ==> !lex_lt(b, a),
        !lex_lt(a, b) && !lex_lt(b, a) ==> a == b,
        !lex_lt(a, a),
        !lex_lt(a, b) && !lex_lt(b, c) ==> !lex_lt(a, c),
        lex_lt(a, b) && lex_lt(b, c) ==> lex_lt(a, c),
{
    lex_is_total(a, b);
    lex_is_total(b, c);
    lex_is_total(a, c);
    lex_is_transitive(a, b, c);
    lex_is_transitive(b, a, c);
    lex_is_transitive(a, c, b);
    lex_is_transitive(c, b, a);
}

/// Whether `a` comes before `b` in the order of code points.
pub fn str_lt(a: &str, b: &str) -> (r: bool)
    ensures
        r == lex_lt(a@, b@),
{
    let x = chars_of(a);
    let y = chars_of(b);
    let mut i: usize = 0;
    assert(x@.skip(0) =~= x@ && y@.skip(0) =~= y@);
    while i < x.len() && i < y.len() && x[i] == y[i]
        invariant
            0 <= i <= x@.len(),
            i <= y@.len(),
            lex_lt(x@, y@) == lex_lt(x@.skip(i as int), y@.skip(i as int)),
        decreases x@.len() - i,
    {
        assert(x@.skip(i as int).drop_first() =~= x@.skip(i + 1));
        assert(y@.skip(i as int).drop_first() =~= y@.skip(i + 1));
        i = i + 1;
    }
    if i == y.len() {
        false
    } else if i == x.len() {
        true
    } else {
        code_point(x[i]) < code_point(y[i])
    }
}

/// The small form of an ASCII capital; any other character as it is.
pub fn char_ascii_lower(c: char) -> (r: char)
    ensures
        r == ascii_lower(c),
{
    let n: u32 = c as u32;
    if 'A' as u32 <= n && n <= 'Z' as u32 {
        (n + 32) as u8 as char
    } else {
        c
    }
}

/// Whether two strings are equal but for the case of ASCII letters.
pub fn str_eq_no_case(a: &str, b: &str) -> (r: bool)
    ensures
        r == eq_no_case(a@, b@),
{
    let x = chars_of(a);
    let y = chars_of(b);
    if x.len() != y.len() {
        return false;
    }
    let mut i: usize = 0;
    while i < x.len()
        invariant
            0 <= i <= x@.len(),
            x@.len() == y@.len(),
            x@ == a@,
            y@ == b@,
            forall|k: int| 0 <= k < i ==> ascii_lower(#[trigger] x@[k]) == ascii_lower(y@[k]),
        decreases x@.len() - i,
    {
        if char_ascii_lower(x[i]) != char_ascii_lower(y[i]) {
            assert(ascii_lower(a@[i as int]) != ascii_lower(b@[i as int]));
            return false;
        }
        i = i + 1;
    }
    true
}

/// Number of bytes of `s` in UTF-8.
pub fn byte_count(s: &str) -> (n: usize)
    ensures
        n == byte_len(s@),
{
    s.len()
}

/// A prefix has no more UTF-16 units than the whole text, and at least one for each character.
pub proof fn utf16_len_mono(s: Seq<char>, n: int)
    requires
        0 <= n <= s.len(),
    ensures
        utf16_len(s.take(n)) <= utf16_len(s),
        n <= utf16_len(s.take(n)) <= 2 * n,
    decreases s.len(),
{
    if n < s.len() {
        utf16_len_mono(s.drop_last(), n);
        assert(s.drop_last().take(n) =~= s.take(n));
    } else {
        assert(s.take(n) =~= s);
        if s.len() > 0 {
            utf16_len_mono(s.drop_last(), n - 1);
            assert(s.drop_last().take(n - 1) =~= s.drop_last());
        }
    }
}

/// Cutting behind at most `n` UTF-16 units takes as many characters as have at most `n`: each prefix
/// up to there has at most `n` units, and each longer one has more.
pub proof fn utf16_cut_is_longest(s: Seq<char>, n: int, k: int)
    requires
        0 <= n,
        0 <= k <= s.len(),
    ensures
        0 <= utf16_cut(s, n) <= s.len(),
        utf16_len(s.take(k)) <= n <==> k <= utf16_cut(s, n),
    decreases s.len(),
{
    if s.len() > 0 && utf16_len(s) > n {
        if k < s.len() {
            utf16_cut_is_longest(s.drop_last(), n, k);
            assert(s.drop_last().take(k) =~= s.take(k));
        } else {
            utf16_cut_is_longest(s.drop_last(), n, s.len() - 1);
            assert(s.take(k) =~= s);
        }
    } else {
        utf16_len_mono(s, k);
    }
}

/// Counts the characters of the longest prefix that has at most `n` UTF-16 units.
pub fn utf16_offset(v: &Vec<char>, n: usize) -> (r: usize)
    ensures
        r <= v@.len(),
        r == utf16_cut(v@, n as int),
{
    let mut units: usize = 0;
    let mut i: usize = 0;
    assert(v@.take(0) =~= Seq::empty());
    while i < v.len()
        invariant
            0 <= i <= v@.len(),
            units == utf16_len(v@.take(i as int)),
            units <= n,
        decreases v@.len() - i,
    {
        let width: usize = if code_point(v[i]) > 0xffff {
            2
        } else {
            1
        };
        assert(v@.take(i + 1).drop_last() =~= v@.take(i as int));
        assert(v@.take(i + 1).last() == v@[i as int]);
        if n - units < width {
            proof {
                utf16_cut_is_longest(v@, n as int, i as int);
                utf16_cut_is_longest(v@, n as int, i + 1);
            }
            return i;
        }
        units = units + width;
        i = i + 1;
    }
    proof {
        utf16_cut_is_longest(v@, n as int, i as int);
    }
    i
}

/// Counts the UTF-16 units of the first `n` characters, in 32 bits.
pub fn utf16_column(v: &Vec<char>, n: usize) -> (r: u32)
    requires
        n <= v@.len(),
    ensures
        r == utf16_len(v@.take(n as int)) as u32,
{
    let mut units: u128 = 0;
    let mut i: usize = 0;
    assert(v@.take(0) =~= Seq::empty());
    while i < n
        invariant
            0 <= i <= n <= v@.len(),
            units == utf16_len(v@.take(i as int)),
            units <= 2 * i,
        decreases n - i,
    {
        let width: u128 = if code_point(v[i]) > 0xffff {
            2
        } else {
            1
        };
        assert(v@.take(i + 1).drop_last() =~= v@.take(i as int));
        assert(v@.take(i + 1).last() == v@[i as int]);
        units = units + width;
        i = i + 1;
    }
    units as u32
}

/// Decimal digits are no space.
pub proof fn decimal_has_no_space(n: nat)
    ensures
        decimal(n).len() > 0,
        forall|i: int| 0 <= i < decimal(n).len() ==> !is_space(#[trigger] decimal(n)[i]),
    decreases n,
{
    if n >= 10 {
        decimal_has_no_space(n / 10);
        let d = decimal(n / 10);
        assert forall|i: int| 0 <= i < decimal(n).len() implies !is_space(#[trigger] decimal(n)[i]) by {
            if i < d.len() {
                assert(decimal(n)[i] == d[i]);
            }
        }
    }
}

// ── Laws of pieces and lines ────────────────────────────────────────────────

/// Each of the lines, with a line feed behind it.
pub open spec fn unlines(ls: Seq<Seq<char>>) -> Seq<char>
    decreases ls.len(),
{
    if ls.len() == 0 {
        Seq::empty()
    } else {
        unlines(ls.drop_last()) + ls.last() + seq!['\n']
    }
}

/// Lines behind others are written behind them.
pub proof fn unlines_add(a: Seq<Seq<char>>, b: Seq<Seq<char>>)
    ensures
        unlines(a + b) == unlines(a) + unlines(b),
    decreases b.len(),
{
    if b.len() == 0 {
        assert(a + b =~= a);
        assert(unlines(a) + unlines(b) =~= unlines(a));
    } else {
        unlines_add(a, b.drop_last());
        assert((a + b).drop_last() =~= a + b.drop_last());
        assert((a + b).last() == b.last());
        assert(unlines(a + b) =~= unlines(a) + unlines(b));
    }
}

/// A text and what follows it split into the pieces of both, the last of the one and the first of the
/// other making one piece.
pub proof fn split_add(a: Seq<char>, b: Seq<char>, c: char)
    ensures
        split_on(a, c).len() > 0,
        split_on(b, c).len() > 0,
        split_on(a + b, c) == split_on(a, c).drop_last() + seq![split_on(a, c).last() + split_on(b, c)[0]] + split_on(
            b,
            c,
        ).drop_first(),
    decreases a.len(),
{
    char_index_is_first(a, c);
    char_index_is_first(b, c);
    let n = char_index(a, c);
    let m = char_index(b, c);
    if n < a.len() {
        let front = a.take(n);
        let rest = a.skip(n + 1);
        split_add(rest, b, c);
        assert(!front.contains(c)) by {
            if front.contains(c) {
                let k = choose|k: int| 0 <= k < front.len() && front[k] == c;
                assert(a[k] == c);
            }
        }
        assert(a + b =~= front + seq![c] + (rest + b));
        char_index_after(front, rest + b, c);
        assert((a + b).take(n) =~= front);
        assert((a + b).skip(n + 1) =~= rest + b);
        let pieces = split_on(rest, c);
        assert(split_on(a, c) == seq![front] + pieces);
        assert(split_on(a, c).drop_last() =~= seq![front] + pieces.drop_last());
        assert(split_on(a, c).last() == pieces.last());
        assert(split_on(a + b, c) =~= split_on(a, c).drop_last() + seq![split_on(a, c).last() + split_on(b, c)[0]]
            + split_on(b, c).drop_first());
    } else {
        assert(split_on(a, c).drop_last() =~= Seq::empty());
        char_index_is_first(a + b, c);
        let k = char_index(a + b, c);
        if m < b.len() {
            let front = a + b.take(m);
            let rest = b.skip(m + 1);
            assert(!front.contains(c)) by {
                if front.contains(c) {
                    let j = choose|j: int| 0 <= j < front.len() && front[j] == c;
                    if j < a.len() {
                        assert(a[j] == c);
                    } else {
                        assert(b[j - a.len()] == c);
                    }
                }
            }
            assert(a + b =~= front + seq![c] + rest);
            char_index_after(front, rest, c);
            assert((a + b).take(front.len() as int) =~= front);
            assert((a + b).skip(front.len() as int + 1) =~= rest);
            assert(split_on(b, c) == seq![b.take(m)] + split_on(rest, c));
            assert(split_on(b, c).drop_first() =~= split_on(rest, c));
            assert(split_on(a + b, c) == seq![front] + split_on(rest, c));
        } else {
            if k < (a + b).len() {
                if k < a.len() {
                    assert(a[k] == c);
                } else {
                    assert(b[k - a.len()] == c);
                }
            }
            assert(split_on(b, c).drop_first() =~= Seq::empty());
        }
        assert(split_on(a + b, c) =~= split_on(a, c).drop_last() + seq![split_on(a, c).last() + split_on(b, c)[0]]
            + split_on(b, c).drop_first());
    }
}

/// The pieces of a text hold no separator, and make the text again when they are joined by it.
pub proof fn split_is_undone(s: Seq<char>, c: char)
    ensures
        split_on(s, c).len() > 0,
        join(split_on(s, c), seq![c]) == s,
        forall|i: int| 0 <= i < split_on(s, c).len() ==> !(#[trigger] split_on(s, c)[i]).contains(c),
    decreases s.len(),
{
    char_index_is_first(s, c);
    let n = char_index(s, c);
    let all = split_on(s, c);
    if n < s.len() {
        let rest = s.skip(n + 1);
        split_is_undone(rest, c);
        let pieces = split_on(rest, c);
        assert(all == seq![s.take(n)] + pieces);
        join_front(all, seq![c]);
        assert(all.drop_first() =~= pieces);
        assert(s =~= s.take(n) + seq![c] + rest);
        assert forall|i: int| 0 <= i < all.len() implies !(#[trigger] all[i]).contains(c) by {
            if i > 0 {
                assert(all[i] == pieces[i - 1]);
            } else if all[0].contains(c) {
                let k = choose|k: int| 0 <= k < all[0].len() && all[0][k] == c;
                assert(s[k] == c);
            }
        }
    } else if s.contains(c) {
        let k = choose|k: int| 0 <= k < s.len() && s[k] == c;
        assert(s[k] == c);
    }
}

/// The lines of a text without carriage returns are its pieces between line feeds, without the empty
/// one behind a line feed at the end.
pub proof fn lines_are_pieces(s: Seq<char>)
    requires
        !s.contains('\r'),
    ensures
        s.len() == 0 ==> lines(s).len() == 0,
        s.len() > 0 && s.last() == '\n' ==> split_on(s, '\n').len() > 1 && split_on(s, '\n').last().len() == 0
            && lines(s) == split_on(s, '\n').drop_last(),
        s.len() > 0 && s.last() != '\n' ==> lines(s) == split_on(s, '\n'),
    decreases s.len(),
{
    if s.len() > 0 {
        char_index_is_first(s, '\n');
        let n = char_index(s, '\n');
        if n < s.len() {
            let front = s.take(n);
            let rest = s.skip(n + 1);
            assert(!rest.contains('\r')) by {
                if rest.contains('\r') {
                    let k = choose|k: int| 0 <= k < rest.len() && rest[k] == '\r';
                    assert(s[n + 1 + k] == '\r');
                }
            }
            if front.len() > 0 {
                assert(front.last() == s[n - 1]);
                assert(s.contains(s[n - 1]));
            }
            assert(chop_cr(front) == front);
            lines_are_pieces(rest);
            let pieces = split_on(rest, '\n');
            assert(split_on(s, '\n') == seq![front] + pieces);
            if rest.len() > 0 {
                assert(rest.last() == s.last());
                if s.last() == '\n' {
                    assert((seq![front] + pieces).drop_last() =~= seq![front] + pieces.drop_last());
                    assert((seq![front] + pieces).last() == pieces.last());
                }
            } else {
                assert(n == s.len() - 1);
                assert(char_index(rest, '\n') == 0);
                assert(pieces =~= seq![rest]);
                assert((seq![front] + pieces).drop_last() =~= seq![front]);
                assert(lines(s) =~= seq![front]);
            }
        } else {
            assert(s[s.len() - 1] != '\n');
        }
    }
}

/// The lines of a text without carriage returns make the text again: each is followed by a line feed,
/// but for the last one where the text has none at its end.
pub proof fn lines_make_the_text(s: Seq<char>)
    requires
        !s.contains('\r'),
    ensures
        s.len() > 0 && s.last() == '\n' ==> join(lines(s), seq!['\n']) + seq!['\n'] == s,
        !(s.len() > 0 && s.last() == '\n') ==> join(lines(s), seq!['\n']) == s,
        forall|i: int| 0 <= i < lines(s).len() ==> !(#[trigger] lines(s)[i]).contains('\n'),
{
    lines_are_pieces(s);
    split_is_undone(s, '\n');
    let pieces = split_on(s, '\n');
    if s.len() == 0 {
        assert(join(lines(s), seq!['\n']) =~= s);
    } else if s.last() == '\n' {
        assert(join(pieces, seq!['\n']) == join(pieces.drop_last(), seq!['\n']) + seq!['\n'] + pieces.last());
        assert(join(lines(s), seq!['\n']) + seq!['\n'] =~= s);
    }
}

/// Joining lines by line feeds writes each with a line feed behind it, but for the last.
pub proof fn join_is_unlines(ls: Seq<Seq<char>>)
    requires
        ls.len() > 0,
    ensures
        join(ls, seq!['\n']).push('\n') == unlines(ls),
    decreases ls.len(),
{
    if ls.len() == 1 {
        assert(unlines(ls.drop_last()) =~= Seq::<char>::empty());
        assert(ls.last() == ls[0]);
        assert(unlines(ls) =~= ls[0].push('\n'));
    } else {
        join_is_unlines(ls.drop_last());
        assert(unlines(ls) =~= join(ls, seq!['\n']).push('\n'));
    }
}

/// A character beyond the basic plane has two UTF-16 units and any other one; a text has those of its
/// characters together.
pub proof fn utf16_units(a: Seq<char>, b: Seq<char>, c: char)
    ensures
        utf16_len(Seq::empty()) == 0,
        utf16_len(seq![c]) == if c as u32 <= 0xffff {
            1int
        } else {
            2
        },
        utf16_len(a + b) == utf16_len(a) + utf16_len(b),
    decreases b.len(),
{
    assert(seq![c].drop_last() =~= Seq::empty());
    assert(utf16_len(seq![c].drop_last()) == 0);
    assert(seq![c].last() == c);
    if b.len() == 0 {
        assert(a + b =~= a);
    } else {
        utf16_units(a, b.drop_last(), c);
        assert((a + b).drop_last() =~= a + b.drop_last());
        assert((a + b).last() == b.last());
    }
}

/// A text that is set right keeps its characters at the end, behind spaces alone, and is as long as
/// the width or, where that is more, as the text.
pub proof fn padding_is_spaces(s: Seq<char>, width: int)
    ensures
        pad_left(s, width).len() == if width > s.len() {
            width
        } else {
            s.len() as int
        },
        pad_left(s, width).skip(pad_left(s, width).len() - s.len()) == s,
        forall|i: int| 0 <= i < pad_left(s, width).len() - s.len() ==> #[trigger] pad_left(s, width)[i] == ' ',
        pad_right(s, width).len() == pad_left(s, width).len(),
        pad_right(s, width).take(s.len() as int) == s,
        forall|i: int| s.len() <= i < pad_right(s, width).len() ==> #[trigger] pad_right(s, width)[i] == ' ',
{
    let p = pad_left(s, width);
    assert(p.skip(p.len() - s.len()) =~= s);
    assert(pad_right(s, width).take(s.len() as int) =~= s);
}

/// Trimming takes away the space around a text, and nothing of the text.
pub proof fn trimming_takes_the_space_around(front: Seq<char>, s: Seq<char>, back: Seq<char>)
    requires
        forall|i: int| 0 <= i < front.len() ==> is_space(#[trigger] front[i]),
        forall|i: int| 0 <= i < back.len() ==> is_space(#[trigger] back[i]),
        s.len() > 0 ==> !is_space(s[0]) && !is_space(s.last()),
        s.len() == 0 ==> front.len() == 0,
    ensures
        trim(front + s + back) == s,
        trim_end(front + s + back) == front + s,
        s.len() > 0 ==> trim_start(front + s + back) == s + back,
    decreases front.len() + back.len(),
{
    let all = front + s + back;
    end_is_trimmed(front + s, back);
    if s.len() > 0 {
        assert(all =~= front + (s + back));
        start_is_trimmed(front, s + back);
        end_is_trimmed(s, back);
    } else {
        assert(front + s =~= s);
        assert(all =~= back + s);
        start_is_trimmed(back, s);
    }
}

proof fn end_is_trimmed(s: Seq<char>, back: Seq<char>)
    requires
        forall|i: int| 0 <= i < back.len() ==> is_space(#[trigger] back[i]),
        s.len() > 0 ==> !is_space(s.last()),
    ensures
        trim_end(s + back) == s,
    decreases back.len(),
{
    if back.len() == 0 {
        assert(s + back =~= s);
    } else {
        assert((s + back).last() == back[back.len() - 1]);
        assert((s + back).drop_last() =~= s + back.drop_last());
        end_is_trimmed(s, back.drop_last());
    }
}

proof fn start_is_trimmed(front: Seq<char>, s: Seq<char>)
    requires
        forall|i: int| 0 <= i < front.len() ==> is_space(#[trigger] front[i]),
        s.len() > 0 ==> !is_space(s[0]),
    ensures
        trim_start(front + s) == s,
    decreases front.len(),
{
    if front.len() == 0 {
        assert(front + s =~= s);
    } else {
        assert((front + s)[0] == front[0]);
        assert((front + s).drop_first() =~= front.drop_first() + s);
        start_is_trimmed(front.drop_first(), s);
    }
}

} // verus!
