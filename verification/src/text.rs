//! Small functions on text: comparing, the last component of a path, and
//! reading an unsigned number.

use vstd::prelude::*;
use vstd::utf8::encode_utf8_decode_utf8;

verus! {

/// Whether two strings hold the same characters.
pub fn same_text(a: &str, b: &str) -> (same: bool)
    ensures
        same == (a@ == b@),
{
    let left = a.as_bytes();
    let right = b.as_bytes();
    proof {
        // Two texts are the same where their encodings are.
        encode_utf8_decode_utf8(a@);
        encode_utf8_decode_utf8(b@);
    }
    if left.len() != right.len() {
        return false;
    }
    let mut i: usize = 0;
    while i < left.len()
        invariant
            i <= left.len(),
            left.len() == right.len(),
            forall|j: int| 0 <= j < i ==> left@[j] == right@[j],
            (left@ == right@) == (a@ == b@),
        decreases left.len() - i,
    {
        if left[i] != right[i] {
            return false;
        }
        i += 1;
    }
    assert(left@ =~= right@);
    true
}

/// Where the last component of `path` starts: behind the last `/`, or at
/// the front where there is none.
pub open spec fn name_start(path: Seq<char>) -> int
    decreases path.len(),
{
    if path.len() == 0 {
        0
    } else if path.last() == '/' {
        path.len() as int
    } else {
        name_start(path.drop_last())
    }
}

/// The last component of `path`: what stands behind its last `/`, or all of
/// it where there is none.
pub open spec fn basename(path: Seq<char>) -> Seq<char> {
    path.skip(name_start(path))
}

/// The last component of a path is its end, holds no `/`, and has a `/`
/// before it unless it is the whole path.
pub proof fn lemma_basename(path: Seq<char>)
    ensures
        0 <= name_start(path) <= path.len(),
        path == path.take(name_start(path)) + basename(path),
        forall|i: int| 0 <= i < basename(path).len() ==> basename(path)[i] != '/',
        name_start(path) > 0 ==> path[name_start(path) - 1] == '/',
    decreases path.len(),
{
    if path.len() > 0 && path.last() != '/' {
        let front = path.drop_last();
        lemma_basename(front);
        assert forall|i: int| 0 <= i < basename(path).len() implies basename(path)[i] != '/' by {
            if i < basename(front).len() {
                assert(basename(path)[i] == basename(front)[i]);
            }
        }
    }
}

/// The last component of `path`.
pub fn file_name(path: &str) -> (name: &str)
    ensures
        name@ == basename(path@),
{
    let n = path.unicode_len();
    let mut start: usize = 0;
    let mut i: usize = 0;
    for c in it: path.chars()
        invariant
            i == it.index(),
            it.seq() == path@,
            n == path@.len(),
            start <= i,
            start == name_start(path@.take(i as int)),
    {
        assert(path@.take(i + 1).drop_last() =~= path@.take(i as int));
        i += 1;
        if c == '/' {
            start = i;
        }
    }
    assert(path@.take(i as int) =~= path@);
    path.substring_char(start, n)
}

/// Whether `c` is one of the ten digits `0` to `9`.
pub open spec fn is_digit(c: char) -> bool {
    '0' <= c <= '9'
}

/// Whether `text` is made of digits only.
pub open spec fn all_digits(text: Seq<char>) -> bool {
    forall|i: int| 0 <= i < text.len() ==> is_digit(#[trigger] text[i])
}

/// The number that the digits of `text` write in base ten.
pub open spec fn digits_value(text: Seq<char>) -> nat
    decreases text.len(),
{
    if text.len() == 0 {
        0
    } else {
        (digits_value(text.drop_last()) * 10 + (text.last() as int - '0' as int)) as nat
    }
}

/// `text` without the one `+` that may stand in front of a number.
pub open spec fn unsigned_part(text: Seq<char>) -> Seq<char> {
    if text.len() > 0 && text[0] == '+' {
        text.drop_first()
    } else {
        text
    }
}

/// The unsigned number that `text` writes: one or more digits, with or
/// without a `+` in front, that stay within 32 bits. Anything else writes
/// none.
pub open spec fn decimal(text: Seq<char>) -> Option<u32> {
    let digits = unsigned_part(text);
    if digits.len() > 0 && all_digits(digits) && digits_value(digits) <= u32::MAX {
        Some(digits_value(digits) as u32)
    } else {
        None
    }
}

/// More digits never write a smaller number.
proof fn lemma_digits_grow(text: Seq<char>, upto: int)
    requires
        all_digits(text),
        0 <= upto <= text.len(),
    ensures
        digits_value(text.take(upto)) <= digits_value(text),
    decreases text.len() - upto,
{
    if upto < text.len() {
        lemma_digits_grow(text, upto + 1);
        assert(text.take(upto + 1).drop_last() =~= text.take(upto));
    } else {
        assert(text.take(upto) =~= text);
    }
}

/// Reads the value of a depth flag.
pub fn parse_depth(value: &str) -> (depth: Option<u32>)
    ensures
        depth == decimal(value@),
{
    let n = value.unicode_len();
    let ghost digits = unsigned_part(value@);
    let ghost from: int = value@.len() - digits.len();
    let mut total: u64 = 0;
    let mut i: usize = 0;
    let mut signed = false;
    for c in it: value.chars()
        invariant
            i == it.index(),
            it.seq() == value@,
            n == value@.len(),
            digits == unsigned_part(value@),
            from == value@.len() - digits.len(),
            signed == (from == 1 && i > 0),
            from <= i || i == 0,
            i > 0 ==> all_digits(digits.take(i - from)),
            i > 0 ==> total == digits_value(digits.take(i - from)),
            i == 0 ==> total == 0,
            total <= u32::MAX,
    {
        if i == 0 && c == '+' {
            signed = true;
        } else if c >= '0' && c <= '9' {
            let digit = c as u64 - '0' as u64;
            proof {
                let done = i - from;
                assert(digits.take(done + 1).drop_last() =~= digits.take(done));
                assert(digits_value(digits.take(done + 1)) == digits_value(digits.take(done)) * 10
                    + digit);
            }
            total = total * 10 + digit;
            if total > u32::MAX as u64 {
                proof {
                    if all_digits(digits) {
                        lemma_digits_grow(digits, i - from + 1);
                    }
                }
                return None;
            }
        } else {
            assert(digits[i - from] == c);
            return None;
        }
        i += 1;
    }
    assert(digits.take(i - from) =~= digits);
    if (signed && i == 1) || i == 0 {
        None
    } else {
        Some(total as u32)
    }
}

} // verus!
