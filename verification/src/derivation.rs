//! The text of a derivation path, and which texts key derivation is asked to
//! follow.
//!
//! A path is a list of components separated by `/`. The component `m` names
//! the root and is skipped; every other component is a decimal number with an
//! optional `'` or `h` behind it, which marks the number as hardened. A path
//! is usable where every number fits 32 bits, every hardened number lies
//! below 2^31, and no more than 255 components are numbers: deeper keys and
//! greater numbers do not exist.

use vstd::prelude::*;
use vstd::string::*;
use vstd::utf8::{is_ascii_chars, is_ascii_chars_encode_utf8};

verus! {

/// The greatest number of a component that is not hardened.
pub const MAX_INDEX: u64 = 0xffff_ffff;

/// The greatest number of a hardened component.
pub const MAX_HARDENED_INDEX: u64 = 0x7fff_ffff;

/// The greatest number of components that are numbers.
pub const MAX_DEPTH: u32 = 255;

/// Whether `c` is a decimal digit.
pub open spec fn is_decimal_digit(c: char) -> bool {
    '0' <= c && c <= '9'
}

/// The number that `digits` spell, where every character is a digit and
/// neither the number nor the number of any of its beginnings exceeds
/// `limit`.
pub open spec fn number_within(digits: Seq<char>, limit: nat) -> Option<nat>
    decreases digits.len(),
{
    if digits.len() == 0 {
        Some(0)
    } else {
        match number_within(digits.drop_last(), limit) {
            None => None,
            Some(front) => {
                let n = front * 10 + (digits.last() as int - '0' as int) as nat;
                if is_decimal_digit(digits.last()) && n <= limit {
                    Some(n)
                } else {
                    None
                }
            },
        }
    }
}

/// Whether a component names the root.
pub open spec fn is_root(component: Seq<char>) -> bool {
    component.len() == 1 && component[0] == 'm'
}

/// Whether a component carries the mark of a hardened number.
pub open spec fn is_hardened(component: Seq<char>) -> bool {
    component.len() > 0 && (component.last() == '\'' || component.last() == 'h')
}

/// Whether a component is a number that key derivation can follow: at least
/// one digit, at most `MAX_INDEX`, and at most `MAX_HARDENED_INDEX` where it
/// is hardened.
pub open spec fn is_index(component: Seq<char>) -> bool {
    if is_hardened(component) {
        component.len() > 1 && number_within(component.drop_last(), MAX_HARDENED_INDEX as nat) is Some
    } else {
        component.len() > 0 && number_within(component, MAX_INDEX as nat) is Some
    }
}

/// Where the component that starts at `start` ends: at the next `/`, or at
/// the end of the text.
pub open spec fn component_end(text: Seq<char>, start: int) -> int
    decreases text.len() - start,
{
    if 0 <= start && start < text.len() && text[start] != '/' {
        component_end(text, start + 1)
    } else {
        start
    }
}

/// Whether the components of `text` from `start` on are the root or usable
/// numbers, no more than `depth` of them numbers.
pub open spec fn usable_from(text: Seq<char>, start: int, depth: nat) -> bool
    decreases text.len() - start,
{
    if start < 0 || start > text.len() {
        false
    } else {
        let end = component_end(text, start);
        let component = text.subrange(start, end);
        if start <= end && end <= text.len() {
            if is_root(component) {
                end == text.len() || usable_from(text, end + 1, depth)
            } else if is_index(component) && depth > 0 {
                end == text.len() || usable_from(text, end + 1, (depth - 1) as nat)
            } else {
                false
            }
        } else {
            false
        }
    }
}

/// Whether `text` is a derivation path that key derivation can follow.
pub open spec fn path_usable(text: Seq<char>) -> bool {
    is_ascii_chars(text) && usable_from(text, 0, MAX_DEPTH as nat)
}

/// The end of a component lies between its start and the end of the text,
/// and no `/` stands before it.
proof fn lemma_component_end(text: Seq<char>, start: int)
    requires
        0 <= start <= text.len(),
    ensures
        start <= component_end(text, start) <= text.len(),
        forall|k: int| start <= k < component_end(text, start) ==> #[trigger] text[k] != '/',
        component_end(text, start) < text.len() ==> text[component_end(text, start)] == '/',
    decreases text.len() - start,
{
    if start < text.len() && text[start] != '/' {
        lemma_component_end(text, start + 1);
    }
}

/// Reads the number of a component from its digits.
fn read_number(bytes: &[u8], from: usize, to: usize, limit: u64, Ghost(text): Ghost<Seq<char>>) -> (ok:
    bool)
    requires
        from <= to <= bytes@.len(),
        bytes@.len() == text.len(),
        limit <= MAX_INDEX,
        forall|k: int| 0 <= k < text.len() ==> '\0' <= #[trigger] text[k] <= '\u{7f}',
        forall|k: int| 0 <= k < text.len() ==> text[k] as u8 == #[trigger] bytes@[k],
    ensures
        ok == (number_within(text.subrange(from as int, to as int), limit as nat) is Some),
{
    let mut acc: u64 = 0;
    let mut cur: usize = from;
    assert(text.subrange(from as int, from as int) =~= Seq::<char>::empty());
    while cur < to
        invariant
            from <= cur <= to <= bytes@.len(),
            bytes@.len() == text.len(),
            limit <= MAX_INDEX,
            acc <= limit,
            forall|k: int| 0 <= k < text.len() ==> '\0' <= #[trigger] text[k] <= '\u{7f}',
            forall|k: int| 0 <= k < text.len() ==> text[k] as u8 == #[trigger] bytes@[k],
            number_within(text.subrange(from as int, cur as int), limit as nat) == Some(acc as nat),
        decreases to - cur,
    {
        let b = bytes[cur];
        proof {
            let next = text.subrange(from as int, cur + 1);
            assert(next.drop_last() =~= text.subrange(from as int, cur as int));
            assert(next.last() == text[cur as int]);
            assert(text[cur as int] as u8 == bytes@[cur as int]);
        }
        if !(0x30 <= b && b <= 0x39) {
            proof {
                lemma_number_stays_none(text, from as int, cur + 1, to as int, limit as nat);
            }
            return false;
        }
        let next: u64 = acc * 10 + (b - 0x30) as u64;
        if next > limit {
            proof {
                lemma_number_stays_none(text, from as int, cur + 1, to as int, limit as nat);
            }
            return false;
        }
        acc = next;
        cur += 1;
    }
    true
}

/// A beginning that spells no number within the limit is not made one by
/// what follows.
proof fn lemma_number_stays_none(text: Seq<char>, from: int, mid: int, to: int, limit: nat)
    requires
        0 <= from <= mid <= to <= text.len(),
        number_within(text.subrange(from, mid), limit) is None,
    ensures
        number_within(text.subrange(from, to), limit) is None,
    decreases to - mid,
{
    if mid < to {
        lemma_number_stays_none(text, from, mid, to - 1, limit);
        assert(text.subrange(from, to).drop_last() =~= text.subrange(from, to - 1));
    }
}

/// What a component is: the root, a usable number, or neither.
enum Component {
    Root,
    Index,
    Neither,
}

/// Tells what the component between `from` and `to` is.
fn read_component(bytes: &[u8], from: usize, to: usize, Ghost(text): Ghost<Seq<char>>) -> (kind:
    Component)
    requires
        from <= to <= bytes@.len(),
        bytes@.len() == text.len(),
        forall|k: int| 0 <= k < text.len() ==> '\0' <= #[trigger] text[k] <= '\u{7f}',
        forall|k: int| 0 <= k < text.len() ==> text[k] as u8 == #[trigger] bytes@[k],
    ensures
        kind is Root <==> is_root(text.subrange(from as int, to as int)),
        kind is Index <==> !is_root(text.subrange(from as int, to as int)) && is_index(
            text.subrange(from as int, to as int),
        ),
{
    let ghost component = text.subrange(from as int, to as int);
    if to == from {
        return Component::Neither;
    }
    proof {
        assert(component[0] == text[from as int]);
        assert(component.last() == text[to - 1]);
        assert(text[from as int] as u8 == bytes@[from as int]);
        assert(text[to - 1] as u8 == bytes@[to - 1]);
    }
    if to - from == 1 && bytes[from] == 0x6d {
        return Component::Root;
    }
    let mark = bytes[to - 1];
    let usable = if mark == 0x27 || mark == 0x68 {
        assert(component.drop_last() =~= text.subrange(from as int, to - 1));
        to - from > 1 && read_number(bytes, from, to - 1, MAX_HARDENED_INDEX, Ghost(text))
    } else {
        read_number(bytes, from, to, MAX_INDEX, Ghost(text))
    };
    if usable {
        Component::Index
    } else {
        Component::Neither
    }
}

/// Whether `path` is a derivation path that key derivation can follow.
pub fn path_is_usable(path: &str) -> (usable: bool)
    ensures
        usable == path_usable(path@),
{
    if !path.is_ascii() {
        return false;
    }
    let bytes = path.as_bytes();
    let ghost text = path@;
    proof {
        is_ascii_chars_encode_utf8(text);
    }
    let mut start: usize = 0;
    let mut depth: u32 = MAX_DEPTH;
    loop
        invariant
            start <= bytes@.len(),
            bytes@.len() == text.len(),
            forall|k: int| 0 <= k < text.len() ==> '\0' <= #[trigger] text[k] <= '\u{7f}',
            forall|k: int| 0 <= k < text.len() ==> text[k] as u8 == #[trigger] bytes@[k],
            usable_from(text, 0, MAX_DEPTH as nat) == usable_from(text, start as int, depth as nat),
            is_ascii_chars(text),
            text == path@,
        decreases bytes@.len() - start,
    {
        let mut end: usize = start;
        while end < bytes.len() && bytes[end] != 0x2f
            invariant
                start <= end <= bytes@.len(),
                bytes@.len() == text.len(),
                forall|k: int| 0 <= k < text.len() ==> '\0' <= #[trigger] text[k] <= '\u{7f}',
                forall|k: int| 0 <= k < text.len() ==> text[k] as u8 == #[trigger] bytes@[k],
                component_end(text, start as int) == component_end(text, end as int),
            decreases bytes@.len() - end,
        {
            assert(text[end as int] as u8 == bytes@[end as int]);
            end += 1;
        }
        proof {
            if end < bytes@.len() {
                assert(text[end as int] as u8 == bytes@[end as int]);
            }
            assert(component_end(text, end as int) == end);
        }
        match read_component(bytes, start, end, Ghost(text)) {
            Component::Root => {},
            Component::Index => {
                if depth == 0 {
                    return false;
                }
                depth -= 1;
            },
            Component::Neither => {
                return false;
            },
        }
        if end == bytes.len() {
            return true;
        }
        start = end + 1;
    }
}

} // verus!
