//! Reading a string slice by characters.

use vstd::prelude::*;
use vstd::std_specs::iter::IteratorSpec;
use vstd::string::StrSliceExecFns;

verus! {

/// `String::push` appends the one character to the end of the string.
pub assume_specification[ String::push ](text: &mut String, ch: char)
    ensures
        final(text)@ == old(text)@.push(ch),
;

/// The first character of `data`, if it has one.
pub fn first_char(data: &str) -> (c: Option<char>)
    ensures
        data@.len() == 0 ==> c is None,
        data@.len() > 0 ==> c == Some(data@[0]),
{
    broadcast use vstd::string::group_string_axioms;

    let mut chars = data.chars();
    chars.next()
}

/// Whether `data` starts with the two characters `first` and `second`.
pub fn starts_with_pair(data: &str, first: char, second: char) -> (b: bool)
    ensures
        b == seq![first, second].is_prefix_of(data@),
{
    broadcast use vstd::string::group_string_axioms;

    let mut chars = data.chars();
    let a = chars.next();
    let b = chars.next();
    proof {
        if data@.len() >= 2 {
            assert(data@.drop_first()[0] == data@[1]);
        }
        if a == Some(first) && b == Some(second) {
            assert(seq![first, second] =~= data@.subrange(0, 2));
        } else if data@.len() >= 2 {
            assert(data@.subrange(0, 2)[0] == data@[0]);
            assert(data@.subrange(0, 2)[1] == data@[1]);
        }
    }
    a == Some(first) && b == Some(second)
}

/// `data` without its first `n` characters.
pub fn drop_chars<'a>(data: &'a str, n: usize) -> (rest: &'a str)
    requires
        n <= data@.len(),
    ensures
        rest@ == data@.skip(n as int),
{
    let len = data.unicode_len();
    data.substring_char(n, len)
}

/// The first `n` characters of `data`.
pub fn take_chars<'a>(data: &'a str, n: usize) -> (head: &'a str)
    requires
        n <= data@.len(),
    ensures
        head@ == data@.take(n as int),
{
    data.substring_char(0, n)
}

} // verus!
