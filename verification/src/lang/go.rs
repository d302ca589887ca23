//! Go names its methods with their receiver: `(*Type).Method` or `(Type).Method`.

use crate::text::{char_count, chars_of, find, find_chars, find_is_first, rfind, rfind_chars, str_eq, string_of};
use vstd::prelude::*;

verus! {

/// What follows the last `).` of `s`, or `s` where there is none.
pub open spec fn base(s: Seq<char>) -> Seq<char> {
    match rfind(s, seq![')', '.']) {
        Some(i) => s.skip(i + 2),
        None => s,
    }
}

/// `s` without the stars at its start.
pub open spec fn without_stars(s: Seq<char>) -> Seq<char>
    decreases s.len(),
{
    if s.len() > 0 && s[0] == '*' {
        without_stars(s.drop_first())
    } else {
        s
    }
}

/// `name` is the method `method` of the type `receiver`: what stands between its first character
/// and its first `).` is the type, stars apart, and its base name is the method.
pub open spec fn is_method_of(name: Seq<char>, receiver: Seq<char>, method: Seq<char>) -> bool {
    base(name) == method && match find(name, seq![')', '.']) {
        Some(i) => i >= 1 && without_stars(name.subrange(1, i)) == receiver,
        None => false,
    }
}

/// The characters `).`.
fn close_dot() -> (r: Vec<char>)
    ensures
        r@ == seq![')', '.'],
{
    let r = vec![')', '.'];
    assert(r@ =~= seq![')', '.']);
    r
}

/// Strips the method receiver from a symbol name: gives what follows the last `).`, or the name
/// itself where it has no receiver.
pub fn base_name(s: &str) -> (r: &str)
    ensures
        r@ == base(s@),
{
    let v = chars_of(s);
    let p = close_dot();
    match rfind_chars(&v, &p) {
        Some(i) => {
            let n: usize = char_count(s);
            assert(s@.subrange(i + 2, s@.len() as int) =~= s@.skip(i + 2));
            s.substring_char(i + 2, n)
        },
        None => s,
    }
}

/// Whether a symbol name matches a `Receiver.Method` query.
pub fn receiver_method_matches(symbol_name: &str, receiver: &str, method: &str) -> (r: bool)
    ensures
        r == is_method_of(symbol_name@, receiver@, method@),
{
    if !str_eq(base_name(symbol_name), method) {
        return false;
    }
    let v = chars_of(symbol_name);
    let p = close_dot();
    match find_chars(&v, &p, 0) {
        Some(end) => {
            if end == 0 {
                return false;
            }
            let mut start: usize = 1;
            while start < end && v[start] == '*'
                invariant
                    1 <= start <= end <= v@.len(),
                    without_stars(v@.subrange(1, end as int)) == without_stars(v@.subrange(start as int, end as int)),
                decreases end - start,
            {
                assert(v@.subrange(start as int, end as int).drop_first() =~= v@.subrange(start + 1, end as int));
                start = start + 1;
            }
            let receiver_type = string_of(&v, start, end);
            str_eq(receiver_type.as_str(), receiver)
        },
        None => false,
    }
}

/// A name without receiver is its own base name.
pub proof fn base_of_plain_name(s: Seq<char>)
    requires
        !crate::text::contains(s, seq![')', '.']),
    ensures
        base(s) == s,
{
    crate::text::rfind_is_last(s, seq![')', '.'], s.len() as int);
}

/// A receiver in front of a plain method name is what `base` takes off, and what a query for that
/// type and method finds.
pub proof fn receiver_is_stripped(receiver: Seq<char>, method: Seq<char>, pointer: bool)
    requires
        !crate::text::contains(method, seq![')', '.']),
        !receiver.contains(')'),
        receiver.len() > 0 ==> receiver[0] != '*',
    ensures
        ({
            let star = if pointer {
                seq!['*']
            } else {
                Seq::empty()
            };
            is_method_of(seq!['('] + star + receiver + seq![')', '.'] + method, receiver, method)
        }),
{
    let star: Seq<char> = if pointer {
        seq!['*']
    } else {
        Seq::empty()
    };
    let p = seq![')', '.'];
    let front = seq!['('] + star + receiver;
    let name = front + p + method;
    let at = front.len() as int;
    assert(name =~= seq!['('] + star + receiver + seq![')', '.'] + method);
    assert(name.subrange(at, at + 2) =~= p);
    assert(crate::text::occurs_at(name, p, at));
    assert(p[0] == ')' && p[1] == '.');
    assert forall|j: int| j != at implies !#[trigger] crate::text::occurs_at(name, p, j) by {
        if crate::text::occurs_at(name, p, j) {
            assert(name.subrange(j, j + 2)[0] == ')');
            assert(name[j] == ')');
            if j < at {
                assert(front[j] == ')');
                if j > star.len() {
                    assert(receiver[j - 1 - star.len()] == ')');
                }
            } else if j == at + 1 {
                assert(name[j] == '.');
            } else {
                assert(method.subrange(j - at - 2, j - at) =~= name.subrange(j, j + 2));
                assert(crate::text::occurs_at(method, p, j - at - 2));
            }
        }
    }
    crate::text::rfind_is_last(name, p, name.len() as int);
    find_is_first(name, p, 0);
    assert(name.skip(at + 2) =~= method);
    let inner = name.subrange(1, at);
    assert(inner =~= star + receiver);
    if pointer {
        assert(inner.drop_first() =~= receiver);
    } else {
        assert(inner =~= receiver);
    }
    reveal_with_fuel(without_stars, 2);
}

} // verus!
