//! The concrete, cache-keyable request value.
//!
//! A resolved request is pure data: URI, method, headers and body as plain
//! strings. Its header list is kept in a canonical order — sorted by name,
//! then by value, in code-point order — so that two requests built from the
//! same entries in any order are equal as values and can serve as one cache
//! key. A fixed product-identification header is appended only when the
//! request is serialized for the wire, so it never takes part in identity.

use crate::config::pairs_model;
use crate::text::{char_seq_lt, lemma_char_seq_lt_asymmetric, lemma_char_seq_lt_total,
    lemma_char_seq_lt_transitive, str_compare, Cmp};
use vstd::multiset::Multiset;
use vstd::prelude::*;
use vstd::seq_lib::lemma_multiset_commutative;
use vstd::string::StringSliceAdditionalSpecFns;
use vstd::string::StrSliceExecFns;

verus! {

broadcast use vstd::seq_lib::group_to_multiset_ensures;

/// Canonical order on header pairs: by name, then by value.
pub open spec fn pair_lt(a: (Seq<char>, Seq<char>), b: (Seq<char>, Seq<char>)) -> bool {
    char_seq_lt(a.0, b.0) || (a.0 == b.0 && char_seq_lt(a.1, b.1))
}

/// Reflexive canonical order.
pub open spec fn pair_le(a: (Seq<char>, Seq<char>), b: (Seq<char>, Seq<char>)) -> bool {
    a == b || pair_lt(a, b)
}

/// A header list in canonical order.
pub open spec fn headers_sorted(h: Seq<(Seq<char>, Seq<char>)>) -> bool {
    forall|i: int, j: int| 0 <= i < j < h.len() ==> pair_le(#[trigger] h[i], #[trigger] h[j])
}

/// The canonical order is total.
pub proof fn lemma_pair_total(a: (Seq<char>, Seq<char>), b: (Seq<char>, Seq<char>))
    ensures
        pair_lt(a, b) || pair_lt(b, a) || a == b,
{
    lemma_char_seq_lt_total(a.0, b.0);
    lemma_char_seq_lt_total(a.1, b.1);
}

/// The canonical order is transitive.
pub proof fn lemma_pair_le_trans(
    a: (Seq<char>, Seq<char>),
    b: (Seq<char>, Seq<char>),
    c: (Seq<char>, Seq<char>),
)
    requires
        pair_le(a, b),
        pair_le(b, c),
    ensures
        pair_le(a, c),
{
    if a != b && b != c {
        if char_seq_lt(a.0, b.0) && char_seq_lt(b.0, c.0) {
            lemma_char_seq_lt_transitive(a.0, b.0, c.0);
        } else if a.0 == b.0 && b.0 == c.0 {
            lemma_char_seq_lt_transitive(a.1, b.1, c.1);
        }
    }
}

/// At most one direction of the strict canonical order can hold.
pub proof fn lemma_pair_asym(a: (Seq<char>, Seq<char>), b: (Seq<char>, Seq<char>))
    ensures
        pair_lt(a, b) ==> !pair_lt(b, a),
{
    lemma_char_seq_lt_asymmetric(a.0, b.0);
    lemma_char_seq_lt_asymmetric(b.0, a.0);
    lemma_char_seq_lt_asymmetric(a.1, b.1);
    lemma_char_seq_lt_asymmetric(b.1, a.1);
}

/// A canonical (sorted) header list is determined by which pairs it holds,
/// with multiplicity: two sorted lists over the same multiset are equal.
/// This is why sorting makes the request a sound cache key.
pub proof fn lemma_sorted_multiset_unique(
    a: Seq<(Seq<char>, Seq<char>)>,
    b: Seq<(Seq<char>, Seq<char>)>,
)
    requires
        headers_sorted(a),
        headers_sorted(b),
        a.to_multiset() == b.to_multiset(),
    ensures
        a == b,
    decreases a.len(),
{
    assert(a.to_multiset().len() == a.len());
    assert(b.to_multiset().len() == b.len());
    if a.len() == 0 {
        assert(a =~= b);
    } else {
        assert(a.contains(a[0]));
        assert(b.to_multiset().count(a[0]) > 0);
        assert(b.contains(a[0]));
        let j = choose|j: int| 0 <= j < b.len() && b[j] == a[0];
        assert(b.contains(b[0]));
        assert(a.to_multiset().count(b[0]) > 0);
        assert(a.contains(b[0]));
        let k = choose|k: int| 0 <= k < a.len() && a[k] == b[0];
        assert(pair_le(b[0], a[0]));
        assert(pair_le(a[0], b[0]));
        lemma_pair_asym(a[0], b[0]);
        assert(a[0] == b[0]);
        let a1 = a.drop_first();
        let b1 = b.drop_first();
        assert(a1 =~= a.remove(0));
        assert(b1 =~= b.remove(0));
        assert(a1.to_multiset() =~= a.to_multiset().remove(a[0]));
        assert(b1.to_multiset() =~= b.to_multiset().remove(b[0]));
        assert(headers_sorted(a1)) by {
            assert forall|i: int, j2: int| 0 <= i < j2 < a1.len() implies pair_le(
                #[trigger] a1[i],
                #[trigger] a1[j2],
            ) by {
                assert(a1[i] == a[i + 1]);
                assert(a1[j2] == a[j2 + 1]);
            }
        }
        assert(headers_sorted(b1)) by {
            assert forall|i: int, j2: int| 0 <= i < j2 < b1.len() implies pair_le(
                #[trigger] b1[i],
                #[trigger] b1[j2],
            ) by {
                assert(b1[i] == b[i + 1]);
                assert(b1[j2] == b[j2 + 1]);
            }
        }
        lemma_sorted_multiset_unique(a1, b1);
        assert forall|i: int| 0 <= i < a.len() implies a[i] == b[i] by {
            if i > 0 {
                assert(a1[i - 1] == a[i]);
                assert(b1[i - 1] == b[i]);
            }
        }
        assert(a =~= b);
    }
}

/// Compare two header pairs in the canonical order.
fn pair_compare(a: &(String, String), b: &(String, String)) -> (c: Cmp)
    ensures
        c == Cmp::Eq <==> (a.0@, a.1@) == (b.0@, b.1@),
        c == Cmp::Lt <==> pair_lt((a.0@, a.1@), (b.0@, b.1@)),
        c == Cmp::Gt <==> pair_lt((b.0@, b.1@), (a.0@, a.1@)),
{
    proof {
        lemma_char_seq_lt_asymmetric(a.0@, b.0@);
        lemma_char_seq_lt_asymmetric(b.0@, a.0@);
    }
    match str_compare(a.0.as_str(), b.0.as_str()) {
        Cmp::Lt => Cmp::Lt,
        Cmp::Gt => Cmp::Gt,
        Cmp::Eq => str_compare(a.1.as_str(), b.1.as_str()),
    }
}

/// Inserting anywhere adds one occurrence to the multiset.
proof fn lemma_insert_to_multiset(s: Seq<(Seq<char>, Seq<char>)>, p: int, x: (Seq<char>, Seq<char>))
    requires
        0 <= p <= s.len(),
    ensures
        s.insert(p, x).to_multiset() == s.to_multiset().insert(x),
{
    let left = s.subrange(0, p);
    let right = s.subrange(p, s.len() as int);
    assert(s =~= left + right);
    assert(s.insert(p, x) =~= left.push(x) + right);
    lemma_multiset_commutative(left, right);
    lemma_multiset_commutative(left.push(x), right);
    assert(left.push(x).to_multiset() =~= left.to_multiset().insert(x));
    assert(s.insert(p, x).to_multiset() =~= s.to_multiset().insert(x));
}

/// Bring a header list into canonical order. The result is sorted and holds
/// exactly the same pairs, with multiplicity.
pub fn sort_headers(headers: Vec<(String, String)>) -> (r: Vec<(String, String)>)
    ensures
        headers_sorted(pairs_model(r@)),
        pairs_model(r@).to_multiset() == pairs_model(headers@).to_multiset(),
{
    let mut rest = headers;
    let mut out: Vec<(String, String)> = Vec::new();
    let ghost orig = rest@;
    proof {
        assert(pairs_model(out@) =~= Seq::empty());
        assert(pairs_model(rest@.skip(0)) =~= pairs_model(rest@));
        assert(pairs_model(Seq::<(String, String)>::empty()).to_multiset().add(
            pairs_model(orig).to_multiset(),
        ) =~= pairs_model(orig).to_multiset());
    }
    let mut taken: usize = 0;
    while taken < rest.len()
        invariant
            taken <= rest@.len(),
            rest@ == orig,
            headers_sorted(pairs_model(out@)),
            pairs_model(out@).to_multiset().add(pairs_model(orig.skip(taken as int)).to_multiset())
                == pairs_model(orig).to_multiset(),
        decreases rest@.len() - taken,
    {
        let name = rest[taken].0.clone();
        let value = rest[taken].1.clone();
        let item = (name, value);
        let ghost item_v = (item.0@, item.1@);
        let ghost out_before = pairs_model(out@);
        // find the first position the item does not come after
        let mut p: usize = 0;
        loop
            invariant
                p <= out@.len(),
                item_v == (item.0@, item.1@),
                pairs_model(out@) == out_before,
                headers_sorted(out_before),
                forall|k: int| 0 <= k < p ==> pair_lt(#[trigger] out_before[k], item_v),
            ensures
                p <= out@.len(),
                pairs_model(out@) == out_before,
                forall|k: int| 0 <= k < p ==> pair_lt(#[trigger] out_before[k], item_v),
                p < out@.len() ==> pair_le(item_v, out_before[p as int]),
            decreases out@.len() - p,
        {
            if p >= out.len() {
                break ;
            }
            let c = pair_compare(&item, &out[p]);
            proof {
                assert(out_before[p as int] == (out@[p as int].0@, out@[p as int].1@));
            }
            if !matches!(c, Cmp::Gt) {
                proof {
                    lemma_pair_total(item_v, out_before[p as int]);
                }
                break ;
            }
            p = p + 1;
        }
        out.insert(p, item);
        proof {
            assert(pairs_model(out@) =~= out_before.insert(p as int, item_v));
            lemma_insert_to_multiset(out_before, p as int, item_v);
            // the inserted list is still sorted
            assert forall|i: int, j: int|
                0 <= i < j < pairs_model(out@).len() implies pair_le(
                #[trigger] pairs_model(out@)[i],
                #[trigger] pairs_model(out@)[j],
            ) by {
                let cur = pairs_model(out@);
                if j < p {
                } else if i < p && j == p {
                } else if i < p && j > p {
                } else if i == p {
                    if p < out_before.len() {
                        lemma_pair_le_trans(item_v, out_before[p as int], cur[j]);
                    }
                } else {
                }
            }
            // one more item moved from the remainder into the sorted list
            assert(pairs_model(orig.skip(taken as int)).drop_first() =~= pairs_model(
                orig.skip(taken + 1),
            ));
            assert(pairs_model(orig.skip(taken as int))[0] == item_v);
            assert(pairs_model(orig.skip(taken as int)) =~= seq![item_v] + pairs_model(
                orig.skip(taken + 1),
            ));
            lemma_multiset_commutative(seq![item_v], pairs_model(orig.skip(taken + 1)));
            assert(seq![item_v].to_multiset() =~= Multiset::empty().insert(item_v));
            assert(pairs_model(out@).to_multiset().add(
                pairs_model(orig.skip(taken + 1)).to_multiset(),
            ) =~= pairs_model(orig).to_multiset());
        }
        taken = taken + 1;
    }
    proof {
        assert(pairs_model(orig.skip(orig.len() as int)) =~= Seq::empty());
        assert(pairs_model(out@).to_multiset() =~= pairs_model(orig).to_multiset());
    }
    out
}

/// Model of a concrete request.
pub struct ReqModel {
    pub uri: Seq<char>,
    pub method: Seq<char>,
    pub headers: Seq<(Seq<char>, Seq<char>)>,
    pub body: Seq<char>,
}

/// A request with every template resolved: not yet a wire request, but
/// cheaply convertible to one, and usable as a cache key.
#[derive(Debug)]
pub struct AlmostRequest {
    uri: String,
    method: String,
    headers: Vec<(String, String)>,
    body: String,
}

impl View for AlmostRequest {
    type V = ReqModel;

    closed spec fn view(&self) -> ReqModel {
        ReqModel {
            uri: self.uri@,
            method: self.method@,
            headers: pairs_model(self.headers@),
            body: self.body@,
        }
    }
}

impl AlmostRequest {
    /// The canonical-form invariant: headers are sorted.
    pub open spec fn wf(self) -> bool {
        headers_sorted(self@.headers)
    }

    /// Put a request together, bringing the headers into canonical order:
    /// the order headers were assembled in never affects the value.
    pub fn assemble(uri: String, method: String, headers: Vec<(String, String)>, body: String) -> (r:
        Self)
        ensures
            r.wf(),
            r@.uri == uri@,
            r@.method == method@,
            r@.body == body@,
            r@.headers.to_multiset() == pairs_model(headers@).to_multiset(),
            headers_sorted(r@.headers),
    {
        let sorted = sort_headers(headers);
        AlmostRequest { uri, method, headers: sorted, body }
    }

    /// The request method.
    pub fn method(&self) -> (r: &String)
        ensures
            r@ == self@.method,
    {
        &self.method
    }

    /// The request URI.
    pub fn uri(&self) -> (r: &String)
        ensures
            r@ == self@.uri,
    {
        &self.uri
    }

    /// The request body.
    pub fn body(&self) -> (r: &String)
        ensures
            r@ == self@.body,
    {
        &self.body
    }

    /// The canonical header list.
    pub fn headers(&self) -> (r: &Vec<(String, String)>)
        ensures
            pairs_model(r@) == self@.headers,
    {
        &self.headers
    }

    /// Value equality: two requests are the same exactly when their models
    /// agree. On canonical-form requests this is the cache-key identity.
    pub fn same_as(&self, other: &AlmostRequest) -> (r: bool)
        ensures
            r <==> self@ == other@,
    {
        if !(self.uri == other.uri && self.method == other.method && self.body == other.body) {
            proof {
                if self@ == other@ {
                    assert(self@.uri == other@.uri);
                    assert(self@.method == other@.method);
                    assert(self@.body == other@.body);
                }
            }
            return false;
        }
        if self.headers.len() != other.headers.len() {
            proof {
                if self@ == other@ {
                    assert(self@.headers.len() == other@.headers.len());
                }
            }
            return false;
        }
        let mut i: usize = 0;
        while i < self.headers.len()
            invariant
                i <= self.headers@.len(),
                self.headers@.len() == other.headers@.len(),
                self@.uri == other@.uri,
                self@.method == other@.method,
                self@.body == other@.body,
                forall|j: int|
                    0 <= j < i ==> #[trigger] pairs_model(self.headers@)[j] == pairs_model(
                        other.headers@,
                    )[j],
            decreases self.headers@.len() - i,
        {
            let a = &self.headers[i];
            let b = &other.headers[i];
            if !(a.0 == b.0 && a.1 == b.1) {
                proof {
                    if self@ == other@ {
                        assert(pairs_model(self.headers@)[i as int] == pairs_model(
                            other.headers@,
                        )[i as int]);
                    }
                }
                return false;
            }
            i = i + 1;
        }
        proof {
            assert(pairs_model(self.headers@) =~= pairs_model(other.headers@));
        }
        true
    }

    /// The headers as they go on the wire: every configured header in
    /// canonical order, then the product-identification header, appended
    /// unconditionally and never overridable by configuration.
    pub fn wire_headers(&self, user_agent: &String) -> (r: Vec<(String, String)>)
        ensures
            pairs_model(r@) == self@.headers.push((user_agent_name(), user_agent@)),
    {
        let mut out: Vec<(String, String)> = Vec::new();
        let mut i: usize = 0;
        while i < self.headers.len()
            invariant
                i <= self.headers@.len(),
                pairs_model(out@) == pairs_model(self.headers@).subrange(0, i as int),
            decreases self.headers@.len() - i,
        {
            let name = self.headers[i].0.clone();
            let value = self.headers[i].1.clone();
            let ghost name_g = name@;
            let ghost value_g = value@;
            let ghost out_old = out@;
            out.push((name, value));
            proof {
                assert(pairs_model(out@) =~= pairs_model(out_old).push((name_g, value_g)));
                assert(pairs_model(self.headers@)[i as int] == (
                    self.headers@[i as int].0@,
                    self.headers@[i as int].1@,
                ));
                assert(pairs_model(out@) =~= pairs_model(self.headers@).subrange(0, i + 1));
            }
            i = i + 1;
        }
        let ua = String::from_str("user-agent");
        let uav = user_agent.clone();
        out.push((ua, uav));
        proof {
            reveal_strlit("user-agent");
            assert(pairs_model(self.headers@).subrange(
                0,
                self.headers@.len() as int,
            ) =~= pairs_model(self.headers@));
            assert(pairs_model(out@) =~= self@.headers.push((user_agent_name(), user_agent@)));
        }
        out
    }
}

/// The name of the product-identification header.
pub open spec fn user_agent_name() -> Seq<char> {
    "user-agent"@
}

// ------------------------------------------------------------------
// Header-value validity.
// ------------------------------------------------------------------
/// A byte a header value may carry: horizontal tab, or any byte from space
/// on except delete.
pub open spec fn is_valid_header_byte(b: u8) -> bool {
    b == 9 || (32 <= b && b != 127)
}

/// A string whose UTF-8 bytes can all stand in a header value.
pub open spec fn valid_header_value(bytes: Seq<u8>) -> bool {
    forall|i: int| 0 <= i < bytes.len() ==> is_valid_header_byte(#[trigger] bytes[i])
}

/// Check that a resolved string is wire-valid as a header value.
pub fn check_header_value(s: &str) -> (r: bool)
    ensures
        r == valid_header_value(s.spec_bytes()),
{
    let bytes = s.as_bytes_vec();
    let mut i: usize = 0;
    while i < bytes.len()
        invariant
            i <= bytes@.len(),
            bytes@ == s.spec_bytes(),
            forall|j: int| 0 <= j < i ==> is_valid_header_byte(#[trigger] bytes@[j]),
        decreases bytes@.len() - i,
    {
        let b = bytes[i];
        if !(b == 9 || (32 <= b && b != 127)) {
            return false;
        }
        i = i + 1;
    }
    true
}

} // verus!
