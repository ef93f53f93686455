//! Small string helpers shared by the library: appending single characters,
//! and a lexicographic comparison of strings by code point (for UTF-8 encoded
//! strings this coincides with byte order, the order the canonical request
//! form is defined over).

use vstd::prelude::*;

verus! {

/// Relies on `String::push`: appends exactly the given character.
#[verifier::external_body]
pub fn push_char(s: &mut String, c: char)
    ensures
        final(s)@ == old(s)@.push(c),
{
    s.push(c);
}

/// Relies on `String::from_utf8`: accepts exactly the valid UTF-8 byte
/// sequences and decodes them; the decoded text re-encodes to the given
/// bytes.
#[verifier::external_body]
pub fn string_from_utf8(bytes: Vec<u8>) -> (r: Option<String>)
    ensures
        r matches Some(s) ==> vstd::utf8::valid_utf8(bytes@) && vstd::utf8::encode_utf8(s@)
            == bytes@,
        r is None ==> !vstd::utf8::valid_utf8(bytes@),
{
    String::from_utf8(bytes).ok()
}

/// The ASCII-lowercase counterpart of a character: ASCII capitals shift to
/// their small forms, every other character stays.
pub open spec fn lower_char(c: char) -> char {
    if 65 <= c as u32 && c as u32 <= 90 {
        ((c as u32) + 32) as char
    } else {
        c
    }
}

/// The string with every ASCII capital lowered.
pub open spec fn lower_ascii(s: Seq<char>) -> Seq<char> {
    s.map_values(|c: char| lower_char(c))
}

/// Lower every ASCII capital in a string (header names are carried in their
/// lowercase form).
pub fn ascii_lowercase(s: &str) -> (r: String)
    ensures
        r@ == lower_ascii(s@),
{
    let len = s.unicode_len();
    let mut out = String::new();
    let mut i: usize = 0;
    while i < len
        invariant
            i <= len,
            len == s@.len(),
            out@ == lower_ascii(s@).subrange(0, i as int),
        decreases len - i,
    {
        let c = s.get_char(i);
        let cu = c as u32;
        let lc: char = if 65 <= cu && cu <= 90 {
            proof {
                lemma_ascii_upper_shift(c);
            }
            ((cu + 32) as u8) as char
        } else {
            c
        };
        push_char(&mut out, lc);
        proof {
            assert(out@ =~= lower_ascii(s@).subrange(0, i + 1));
        }
        i = i + 1;
    }
    proof {
        assert(lower_ascii(s@).subrange(0, s@.len() as int) =~= lower_ascii(s@));
    }
    out
}

/// Shifting an ASCII capital down into the small letters stays within
/// ASCII, so the narrow cast through `u8` is exact.
proof fn lemma_ascii_upper_shift(c: char)
    requires
        65 <= c as u32 <= 90,
    ensures
        (((c as u32) + 32) as u8) as char == ((c as u32) + 32) as char,
{
}

/// Strict lexicographic order on character sequences, by code point.
pub open spec fn char_seq_lt(a: Seq<char>, b: Seq<char>) -> bool
    decreases a.len(),
{
    if b.len() == 0 {
        false
    } else if a.len() == 0 {
        true
    } else if (a[0] as u32) < (b[0] as u32) {
        true
    } else if (b[0] as u32) < (a[0] as u32) {
        false
    } else {
        char_seq_lt(a.drop_first(), b.drop_first())
    }
}

/// Result of a three-way comparison.
#[derive(Clone, Copy, PartialEq, Eq, Structural)]
pub enum Cmp {
    Lt,
    Eq,
    Gt,
}

/// Two characters compare equal exactly when their code points do.
proof fn lemma_char_eq_code_point(a: char, b: char)
    ensures
        a == b <==> a as u32 == b as u32,
{
    if a as u32 == b as u32 {
        vstd::utf8::char_u32_cast(a, a as u32);
        vstd::utf8::char_u32_cast(b, b as u32);
    }
}

/// The three outcomes of the lexicographic comparison exclude one another.
pub proof fn lemma_char_seq_lt_asymmetric(a: Seq<char>, b: Seq<char>)
    ensures
        char_seq_lt(a, b) ==> !char_seq_lt(b, a),
        char_seq_lt(a, b) ==> a != b,
    decreases a.len(),
{
    if b.len() == 0 || a.len() == 0 {
        // one side is empty: at most one direction holds, and the sides
        // differ in length whenever the nonempty direction holds
    } else {
        lemma_char_eq_code_point(a[0], b[0]);
        if a[0] == b[0] {
            lemma_char_seq_lt_asymmetric(a.drop_first(), b.drop_first());
        }
    }
}

/// The lexicographic order is total: two sequences compare some way.
pub proof fn lemma_char_seq_lt_total(a: Seq<char>, b: Seq<char>)
    ensures
        char_seq_lt(a, b) || char_seq_lt(b, a) || a == b,
    decreases a.len(),
{
    if a.len() > 0 && b.len() > 0 {
        lemma_char_eq_code_point(a[0], b[0]);
        if a[0] == b[0] {
            lemma_char_seq_lt_total(a.drop_first(), b.drop_first());
            if a.drop_first() == b.drop_first() {
                assert(a =~= Seq::empty().push(a[0]) + a.drop_first());
                assert(b =~= Seq::empty().push(a[0]) + b.drop_first());
            }
        }
    }
}

/// The lexicographic order is transitive.
pub proof fn lemma_char_seq_lt_transitive(a: Seq<char>, b: Seq<char>, c: Seq<char>)
    requires
        char_seq_lt(a, b),
        char_seq_lt(b, c),
    ensures
        char_seq_lt(a, c),
    decreases a.len(),
{
    if a.len() > 0 && b.len() > 0 && c.len() > 0 {
        lemma_char_eq_code_point(a[0], b[0]);
        lemma_char_eq_code_point(b[0], c[0]);
        lemma_char_eq_code_point(a[0], c[0]);
        if a[0] == b[0] && b[0] == c[0] {
            lemma_char_seq_lt_transitive(a.drop_first(), b.drop_first(), c.drop_first());
        }
    }
}

/// Three-way comparison of two strings in code-point lexicographic order.
pub fn str_compare(a: &str, b: &str) -> (c: Cmp)
    ensures
        c == Cmp::Eq <==> a@ == b@,
        c == Cmp::Lt <==> char_seq_lt(a@, b@),
        c == Cmp::Gt <==> char_seq_lt(b@, a@),
{
    proof {
        lemma_char_seq_lt_asymmetric(a@, b@);
        lemma_char_seq_lt_asymmetric(b@, a@);
        lemma_char_seq_lt_total(a@, b@);
    }
    let a_len = a.unicode_len();
    let b_len = b.unicode_len();
    let mut i: usize = 0;
    while i < a_len && i < b_len
        invariant
            i <= a_len,
            i <= b_len,
            a_len == a@.len(),
            b_len == b@.len(),
            forall|j: int| 0 <= j < i ==> a@[j] == b@[j],
        decreases a_len - i,
    {
        let ca = a.get_char(i);
        let cb = b.get_char(i);
        if (ca as u32) < (cb as u32) {
            proof {
                lemma_prefix_then_lt(a@, b@, i as int);
                lemma_char_seq_lt_asymmetric(a@, b@);
            }
            return Cmp::Lt;
        }
        if (cb as u32) < (ca as u32) {
            proof {
                lemma_prefix_then_lt(b@, a@, i as int);
                lemma_char_seq_lt_asymmetric(b@, a@);
            }
            return Cmp::Gt;
        }
        proof {
            lemma_char_eq_code_point(ca, cb);
        }
        i = i + 1;
    }
    if a_len == b_len {
        proof {
            assert(a@ =~= b@);
        }
        Cmp::Eq
    } else if a_len < b_len {
        proof {
            lemma_proper_prefix_lt(a@, b@);
        }
        Cmp::Lt
    } else {
        proof {
            lemma_proper_prefix_lt(b@, a@);
        }
        Cmp::Gt
    }
}

/// If two sequences agree up to position `i` and the first then has the
/// smaller character, the first is lexicographically smaller.
proof fn lemma_prefix_then_lt(a: Seq<char>, b: Seq<char>, i: int)
    requires
        0 <= i < a.len(),
        i < b.len(),
        forall|j: int| 0 <= j < i ==> a[j] == b[j],
        (a[i] as u32) < (b[i] as u32),
    ensures
        char_seq_lt(a, b),
    decreases i,
{
    lemma_char_eq_code_point(a[i], b[i]);
    if i == 0 {
    } else {
        assert(a[0] == b[0]);
        let a1 = a.drop_first();
        let b1 = b.drop_first();
        assert(forall|j: int| 0 <= j < i - 1 ==> a1[j] == #[trigger] b1[j]);
        assert(a1[i - 1] == a[i]);
        assert(b1[i - 1] == b[i]);
        lemma_prefix_then_lt(a1, b1, i - 1);
    }
}

/// A proper prefix is lexicographically smaller than the longer sequence.
proof fn lemma_proper_prefix_lt(a: Seq<char>, b: Seq<char>)
    requires
        a.len() < b.len(),
        forall|j: int| 0 <= j < a.len() ==> a[j] == b[j],
    ensures
        char_seq_lt(a, b),
    decreases a.len(),
{
    if a.len() > 0 {
        assert(a[0] == b[0]);
        let a1 = a.drop_first();
        let b1 = b.drop_first();
        assert(forall|j: int| 0 <= j < a1.len() ==> a1[j] == #[trigger] b1[j]);
        lemma_proper_prefix_lt(a1, b1);
    }
}

} // verus!
