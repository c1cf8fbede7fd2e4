use vstd::prelude::*;
use vstd::utf8::encode_utf8;

use crate::meta_command::CommandError;

verus! {

/// Whether `c` has the Unicode `White_Space` property, as `char::is_whitespace`
/// decides it.
pub open spec fn is_whitespace(c: char) -> bool {
    ('\u{9}' <= c && c <= '\u{d}') || c == ' ' || c == '\u{85}' || c == '\u{a0}' || c == '\u{1680}'
        || ('\u{2000}' <= c && c <= '\u{200a}') || c == '\u{2028}' || c == '\u{2029}' || c
        == '\u{202f}' || c == '\u{205f}' || c == '\u{3000}'
}

/// `s` without its trailing whitespace.
pub open spec fn trimmed_end(s: Seq<char>) -> Seq<char>
    decreases s.len(),
{
    if s.len() > 0 && is_whitespace(s.last()) {
        trimmed_end(s.drop_last())
    } else {
        s
    }
}

/// Relies on `str::trim_end`: the string with every trailing character for
/// which `char::is_whitespace` holds removed.
#[verifier::external_body]
pub(crate) fn trim_end(s: &str) -> (r: &str)
    ensures
        r@ == trimmed_end(s@),
{
    s.trim_end()
}

/// An ASCII upper-case letter becomes lower case; every other character is
/// kept.
pub open spec fn ascii_lower(c: char) -> char {
    if 'A' <= c && c <= 'Z' {
        ((c as u32) + 32) as char
    } else {
        c
    }
}

/// Relies on `str::to_ascii_lowercase`: each ASCII upper-case letter is
/// mapped to lower case, all other characters are kept.
#[verifier::external_body]
fn to_ascii_lowercase(s: &str) -> (r: String)
    ensures
        r@ == s@.map_values(|c: char| ascii_lower(c)),
{
    s.to_ascii_lowercase()
}

/// One line of input: the text as read, its length in bytes, and the length
/// in bytes of the text without trailing whitespace.
#[derive(Debug)]
pub struct InputBuffer {
    pub buffer: String,
    pub buffer_length: usize,
    pub input_length: usize,
}

impl InputBuffer {
    /// A buffer that holds no input yet.
    pub fn new() -> (r: InputBuffer)
        ensures
            r.buffer@ == Seq::<char>::empty(),
            r.buffer_length == 0,
            r.input_length == 0,
    {
        InputBuffer { buffer: String::new(), buffer_length: 0, input_length: 0 }
    }

    /// A buffer that holds `s` as its input.
    pub fn from_line(s: &str) -> (r: InputBuffer)
        ensures
            r.buffer@ == s@,
            r.buffer_length == encode_utf8(s@).len() as usize,
            r.input_length == encode_utf8(trimmed_end(s@)).len() as usize,
    {
        let buffer = s.to_owned();
        let buffer_length = s.len();
        let input_length = trim_end(s).len();
        InputBuffer { buffer, buffer_length, input_length }
    }

    /// Takes in a line that was read, lower-cased, unless the buffer already
    /// holds input.
    pub fn read_input(&mut self, line: &str)
        ensures
            old(self).input_length != 0 ==> *final(self) == *old(self),
            old(self).input_length == 0 ==> {
                let lowered = line@.map_values(|c: char| ascii_lower(c));
                &&& final(self).buffer@ == lowered
                &&& final(self).buffer_length == encode_utf8(lowered).len() as usize
                &&& final(self).input_length == encode_utf8(trimmed_end(lowered)).len() as usize
            },
    {
        if self.input_length == 0 {
            let lowered = to_ascii_lowercase(line);
            self.buffer_length = lowered.as_str().len();
            self.input_length = trim_end(lowered.as_str()).len();
            self.buffer = lowered;
        }
    }

    /// The input without its trailing whitespace.
    pub fn get_buffer(&self) -> (r: &str)
        ensures
            r@ == trimmed_end(self.buffer@),
    {
        trim_end(self.buffer.as_str())
    }
}

impl std::str::FromStr for InputBuffer {
    type Err = CommandError;

    fn from_str(s: &str) -> Result<InputBuffer, CommandError> {
        Ok(InputBuffer::from_line(s))
    }
}

} // verus!
