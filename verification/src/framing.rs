//! LSP messages are `Content-Length: N\r\n\r\n` followed by N bytes of JSON.
//!
//! The header lines are read one at a time; [`Headers`] keeps what they said
//! until the blank line that ends them.

use vstd::prelude::*;
use crate::numbers::{all_digits, digit_of, digits_value, parse_unsigned, parsed_within, unsigned_value};
use crate::text::{
    append_chars, chars_of, dec_digit, decimal, decimal_exec, is_ws, slice_chars, string_of,
    strip_prefix, strip_prefix_exec, trim, trim_exec, trim_start,
};

verus! {

broadcast use vstd::string::group_string_axioms;

/// The line without any `\r` and `\n` at its end.
pub open spec fn without_line_end(line: Seq<char>) -> Seq<char>
    decreases line.len(),
{
    if line.len() > 0 && (line.last() == '\r' || line.last() == '\n') {
        without_line_end(line.drop_last())
    } else {
        line
    }
}

/// The length a `Content-Length` value gives: its text without surrounding
/// whitespace must be a decimal number that fits in a `usize`.
pub open spec fn length_value(value: Seq<char>) -> Option<nat> {
    parsed_within(vstd::utf8::encode_utf8(trim(value)), 10, usize::MAX as nat)
}

/// What one header line does to the length read so far, and whether it is
/// the blank line that ends the headers. Unknown headers are ignored; a
/// `Content-Length` that cannot be read leaves no length.
pub open spec fn header_step(length: Option<nat>, line: Seq<char>) -> (Option<nat>, bool) {
    let text = without_line_end(line);
    if text.len() == 0 {
        (length, true)
    } else {
        match strip_prefix(text, "Content-Length:"@) {
            Some(value) => (length_value(value), false),
            None => (length, false),
        }
    }
}

/// The headers of one message, as far as they have been read.
pub struct Headers {
    length: Option<usize>,
}

impl Headers {
    /// The length the headers give so far.
    pub closed spec fn length(&self) -> Option<nat> {
        match self.length {
            Some(n) => Some(n as nat),
            None => None,
        }
    }

    /// Before the first header line.
    pub fn new() -> (r: Headers)
        ensures
            r.length() is None,
    {
        Headers { length: None }
    }

    /// Takes one header line, as read with its line ending, and says whether
    /// it was the blank line that ends the headers.
    pub fn take_line(&mut self, line: &str) -> (done: bool)
        ensures
            (final(self).length(), done) == header_step(old(self).length(), line@),
    {
        let chars = chars_of(line);
        let mut end = chars.len();
        assert(chars@.take(chars@.len() as int) =~= line@);
        while end > 0 && (chars[end - 1] == '\r' || chars[end - 1] == '\n')
            invariant
                0 <= end <= chars@.len(),
                without_line_end(chars@.take(end as int)) == without_line_end(line@),
            decreases end,
        {
            assert(chars@.take(end as int).drop_last() =~= chars@.take(end - 1));
            end -= 1;
        }
        assert(without_line_end(chars@.take(end as int)) == chars@.take(end as int));
        let text = slice_chars(chars.as_slice(), 0, end);
        assert(text@ =~= chars@.take(end as int));
        if text.len() == 0 {
            return true;
        }
        let prefix = chars_of("Content-Length:");
        match strip_prefix_exec(text.as_slice(), prefix.as_slice()) {
            Some(value) => {
                let trimmed = string_of(trim_exec(value.as_slice()).as_slice());
                self.length = match parse_unsigned(trimmed.as_str().as_bytes(), 10, usize::MAX as u64) {
                    Some(n) => Some(n as usize),
                    None => None,
                };
            },
            None => {},
        }
        false
    }

    /// The length of the body, once the headers are done; `None` when no
    /// usable `Content-Length` was given, which makes the message invalid.
    pub fn content_length(&self) -> (r: Option<usize>)
        ensures
            match self.length() {
                Some(n) => r == Some(n as usize),
                None => r is None,
            },
    {
        self.length
    }
}

/// The header written before a body of `len` bytes.
pub open spec fn header_for(len: nat) -> Seq<char> {
    "Content-Length: "@ + decimal(len) + "\r\n\r\n"@
}

/// The header to write before a body of `len` bytes.
pub fn header(len: usize) -> (r: String)
    ensures
        r@ == header_for(len as nat),
{
    let mut v = chars_of("Content-Length: ");
    let digits = decimal_exec(len as u64);
    append_chars(&mut v, digits.as_slice());
    let end = chars_of("\r\n\r\n");
    append_chars(&mut v, end.as_slice());
    string_of(v.as_slice())
}

/// The decimal digits of a number: ASCII digits, the first not a sign,
/// spelling the number back.
proof fn lemma_decimal_reads_back(n: nat)
    ensures
        decimal(n).len() > 0,
        vstd::utf8::is_ascii_chars(decimal(n)),
        forall|i: int| 0 <= i < decimal(n).len() ==> '0' <= #[trigger] decimal(n)[i] <= '9',
        all_digits(ascii_bytes(decimal(n)), 10),
        digits_value(ascii_bytes(decimal(n)), 10) == n,
    decreases n,
{
    let d = decimal(n);
    if n >= 10 {
        lemma_decimal_reads_back(n / 10);
        let p = decimal(n / 10);
        assert(d == p.push(dec_digit(n % 10)));
        assert(ascii_bytes(d).drop_last() =~= ascii_bytes(p));
        assert(ascii_bytes(d).last() == (dec_digit(n % 10) as u8));
        assert((dec_digit(n % 10) as u32) == 48 + n % 10);
        assert((dec_digit(n % 10) as u8) == 48 + n % 10);
        assert(digit_of(ascii_bytes(d).last(), 10) == Some(n % 10));
        assert(digits_value(ascii_bytes(d), 10) == digits_value(ascii_bytes(p), 10) * 10 + n % 10);
        assert(digits_value(ascii_bytes(d), 10) == n);
        assert forall|i: int| 0 <= i < d.len() implies '0' <= #[trigger] d[i] <= '9' by {
            if i < p.len() {
                assert(d[i] == p[i]);
            }
        }
        assert forall|i: int| 0 <= i < ascii_bytes(d).len() implies (#[trigger] digit_of(ascii_bytes(d)[i], 10)) is Some by {
            assert('0' <= d[i] <= '9');
        }
        assert(n == (n / 10) * 10 + n % 10);
    } else {
        assert(ascii_bytes(d).drop_last() =~= Seq::<u8>::empty());
        assert((dec_digit(n) as u32) == 48 + n);
        assert((dec_digit(n) as u8) == 48 + n);
        assert(digit_of(ascii_bytes(d).last(), 10) == Some(n));
        assert(digits_value(ascii_bytes(d).drop_last(), 10) == 0);
        assert(digits_value(ascii_bytes(d), 10) == n);
    }
}

/// The bytes of an ASCII text.
pub open spec fn ascii_bytes(s: Seq<char>) -> Seq<u8> {
    Seq::new(s.len(), |i: int| s[i] as u8)
}

proof fn lemma_header_text(digits: Seq<char>)
    requires
        digits.len() > 0,
        '0' <= digits.last() <= '9',
    ensures
        without_line_end("Content-Length: "@ + digits + "\r\n"@) == "Content-Length: "@ + digits,
        without_line_end("\r\n"@).len() == 0,
{
    reveal_strlit("Content-Length: ");
    reveal_strlit("\r\n");
    let text = "Content-Length: "@ + digits;
    let line = text + "\r\n"@;
    assert(line.drop_last() =~= text + seq!['\r']);
    assert((text + seq!['\r']).drop_last() =~= text);
    assert(text.last() == digits.last());
    assert(without_line_end(text) == text);
    assert(line.last() == '\n');
    assert((text + seq!['\r']).last() == '\r');
    assert(without_line_end(text + seq!['\r']) == without_line_end(text));
    assert(without_line_end(line) == without_line_end(text + seq!['\r']));
    assert(("\r\n"@).drop_last() =~= seq!['\r']);
    assert(seq!['\r'].drop_last() =~= Seq::<char>::empty());
    assert("\r\n"@ =~= seq!['\r', '\n']);
    assert(without_line_end(Seq::<char>::empty()).len() == 0);
    assert(without_line_end(seq!['\r']) == without_line_end(Seq::<char>::empty()));
    assert(without_line_end("\r\n"@) == without_line_end(seq!['\r']));
}

proof fn lemma_header_value(digits: Seq<char>)
    requires
        digits.len() > 0,
        '0' <= digits[0] <= '9',
        '0' <= digits.last() <= '9',
    ensures
        strip_prefix("Content-Length: "@ + digits, "Content-Length:"@) == Some(" "@ + digits),
        trim(" "@ + digits) == digits,
{
    reveal_strlit("Content-Length: ");
    reveal_strlit("Content-Length:");
    reveal_strlit(" ");
    let value = " "@ + digits;
    let text = "Content-Length: "@ + digits;
    assert("Content-Length: "@ =~= "Content-Length:"@ + seq![' ']);
    assert(text.take("Content-Length:"@.len() as int) =~= "Content-Length:"@);
    assert(text.skip("Content-Length:"@.len() as int) =~= value);
    assert(is_ws(' '));
    assert(value.skip(1) =~= digits);
    assert(!is_ws(digits[0]));
    assert(value[0] == ' ');
    assert(trim_start(digits) == digits);
    assert(trim_start(value) == trim_start(value.skip(1)));
    assert(!is_ws(digits.last()));
}

/// The header a writer puts before a body is read back as that body's
/// length, and the blank line after it ends the headers.
pub proof fn law_written_lengths_are_read_back(len: nat, before: Option<nat>)
    requires
        len <= usize::MAX,
    ensures
        header_step(before, "Content-Length: "@ + decimal(len) + "\r\n"@) == (Some(len), false),
        header_step(Some(len), "\r\n"@) == (Some(len), true),
{
    lemma_decimal_reads_back(len);
    let digits = decimal(len);
    lemma_header_text(digits);
    lemma_header_value(digits);
    vstd::utf8::is_ascii_chars_encode_utf8(digits);
    assert(vstd::utf8::encode_utf8(digits) =~= ascii_bytes(digits));
    assert(ascii_bytes(digits)[0] != 43u8);
    assert(unsigned_value(ascii_bytes(digits), 10) == Some(len));
}

} // verus!
