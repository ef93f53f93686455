//! The cookie request header: every configured cookie is percent-encoded as
//! `name=value` and the pairs are joined with `"; "`.
//!
//! The percent-encoding is the common URL form: ASCII letters, digits and
//! `-`, `_`, `.`, `~` stand for themselves; every other byte of the UTF-8
//! encoding becomes `%` followed by two uppercase hexadecimal digits.

use crate::text::push_char;
use vstd::prelude::*;
use vstd::string::StrSliceExecFns;
use vstd::string::StringSliceAdditionalSpecFns;

verus! {

/// Bytes that percent-encoding leaves as they are.
pub open spec fn is_unreserved(b: u8) -> bool {
    ||| 0x30 <= b <= 0x39  // '0'..'9'
    ||| 0x41 <= b <= 0x5a  // 'A'..'Z'
    ||| 0x61 <= b <= 0x7a  // 'a'..'z'
    ||| b == 0x2d  // '-'
    ||| b == 0x5f  // '_'
    ||| b == 0x2e  // '.'
    ||| b == 0x7e  // '~'
}

/// The uppercase hexadecimal digit of a value below 16.
pub open spec fn hex_upper(n: u8) -> char {
    if n < 10 {
        ((n + 0x30) as u8) as char
    } else {
        ((n + 0x37) as u8) as char
    }
}

/// What one byte contributes to the encoded form.
pub open spec fn encode_byte(b: u8) -> Seq<char> {
    if is_unreserved(b) {
        seq![b as char]
    } else {
        seq!['%', hex_upper((b / 16) as u8), hex_upper((b % 16) as u8)]
    }
}

/// Percent-encoding of a whole byte sequence.
pub open spec fn urlencode_bytes(s: Seq<u8>) -> Seq<char>
    decreases s.len(),
{
    if s.len() == 0 {
        Seq::empty()
    } else {
        urlencode_bytes(s.drop_last()) + encode_byte(s.last())
    }
}

/// Percent-encode the UTF-8 bytes of a string.
pub fn urlencode(s: &str) -> (r: String)
    ensures
        r@ == urlencode_bytes(s.spec_bytes()),
{
    let bytes = s.as_bytes_vec();
    let mut out = String::new();
    let mut i: usize = 0;
    while i < bytes.len()
        invariant
            i <= bytes@.len(),
            bytes@ == s.spec_bytes(),
            out@ == urlencode_bytes(bytes@.subrange(0, i as int)),
        decreases bytes@.len() - i,
    {
        let b = bytes[i];
        if (0x30 <= b && b <= 0x39) || (0x41 <= b && b <= 0x5a) || (0x61 <= b && b <= 0x7a)
            || b == 0x2d || b == 0x5f || b == 0x2e || b == 0x7e {
            push_char(&mut out, b as char);
        } else {
            push_char(&mut out, '%');
            let hi = b / 16;
            let lo = b % 16;
            let hi_c = if hi < 10 {
                (hi + 0x30) as char
            } else {
                (hi + 0x37) as char
            };
            let lo_c = if lo < 10 {
                (lo + 0x30) as char
            } else {
                (lo + 0x37) as char
            };
            push_char(&mut out, hi_c);
            push_char(&mut out, lo_c);
        }
        proof {
            assert(bytes@.subrange(0, i + 1).drop_last() =~= bytes@.subrange(0, i as int));
            assert(bytes@.subrange(0, i + 1).last() == bytes@[i as int]);
            assert(out@ =~= urlencode_bytes(bytes@.subrange(0, i + 1)));
        }
        i = i + 1;
    }
    proof {
        assert(bytes@.subrange(0, bytes@.len() as int) =~= bytes@);
    }
    out
}

/// What adding one `name=value` pair does to a cookie header line.
pub open spec fn cookie_extended(
    line: Seq<char>,
    name_bytes: Seq<u8>,
    value_bytes: Seq<u8>,
) -> Seq<char> {
    (if line.len() == 0 {
        line
    } else {
        line + seq![';', ' ']
    }) + urlencode_bytes(name_bytes) + seq!['='] + urlencode_bytes(value_bytes)
}

/// An accumulating cookie header value.
pub struct Cookie(pub String);

impl Cookie {
    /// An empty cookie header.
    pub fn new() -> (r: Self)
        ensures
            r.0@ == Seq::<char>::empty(),
    {
        Cookie(String::new())
    }

    /// Append one cookie as `urlencode(name)=urlencode(value)`, separated
    /// from any earlier pair by `"; "`.
    pub fn add(&mut self, name: &str, value: &str)
        ensures
            final(self).0@ == cookie_extended(old(self).0@, name.spec_bytes(), value.spec_bytes()),
    {
        if !self.0.as_str().is_empty() {
            push_char(&mut self.0, ';');
            push_char(&mut self.0, ' ');
        }
        let encoded_name = urlencode(name);
        self.0.append(encoded_name.as_str());
        push_char(&mut self.0, '=');
        let encoded_value = urlencode(value);
        self.0.append(encoded_value.as_str());
        proof {
            assert(final(self).0@ =~= cookie_extended(
                old(self).0@,
                name.spec_bytes(),
                value.spec_bytes(),
            ));
        }
    }

    /// The accumulated header line.
    pub fn line(&self) -> (r: &String)
        ensures
            r@ == self.0@,
    {
        &self.0
    }
}

} // verus!
