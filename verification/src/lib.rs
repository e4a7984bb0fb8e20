use vstd::prelude::*;

pub mod clipboard;
pub mod pattern;
pub mod sanitizer;
pub mod tts;

verus! {

/// `String::push` from std: appends one character to the end of the string.
pub assume_specification[ String::push ](s: &mut String, ch: char)
    ensures
        final(s)@ == old(s)@.push(ch),
;

/// `String::push_str` from std: appends the characters of `string` to the end of `s`.
pub assume_specification[ String::push_str ](s: &mut String, string: &str)
    ensures
        final(s)@ == old(s)@ + string@,
;

} // verus!
