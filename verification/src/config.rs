//! The configuration model: endpoint specifications, the recursive value
//! expressions their cookies, headers and bodies are written in, and the
//! merge of global defaults into every endpoint.

use crate::text::push_char;
use vstd::prelude::*;

verus! {

/// How a value is pulled out of a response body.
#[derive(Debug)]
pub enum BodyExtract {
    /// Parse the body as JSON and read this JSON pointer.
    Json { pointer: String },
}

/// A declarative value: already concrete, a template over resources, or
/// derived from the response of another request.
#[derive(Debug)]
pub enum Value {
    /// Contains `${...}` placeholders to resolve.
    Formatted(String),
    /// Already resolved, used as it stands.
    Constant(String),
    /// The response of a nested request supplies the value.
    Request(Box<FromResponseBody>),
}

/// A value derived from the response body of a nested request.
#[derive(Debug)]
pub struct FromResponseBody {
    /// The request whose response is read.
    pub request: RequestInfo,
    /// An optional extraction applied to the body.
    pub extract: Option<BodyExtract>,
    /// An optional format string the extracted value is spliced into.
    pub format: Option<String>,
}

/// A cookie or header entry: deleted outright, or carrying a value.
#[derive(Debug)]
pub enum MaybeDeleted {
    /// Suppresses an inherited entry of the same name entirely.
    Deleted(Deleted),
    /// Overrides or introduces an entry.
    Value(Value),
}

/// The deletion sentinel (written as an empty table in the configuration).
#[derive(Debug, Clone, Copy)]
pub struct Deleted;

/// One request template: where and how to send, and what to send.
#[derive(Debug)]
pub struct RequestInfo {
    pub uri: String,
    pub method: String,
    pub cookies: Vec<(String, MaybeDeleted)>,
    pub headers: Vec<(String, MaybeDeleted)>,
    pub body: Box<Value>,
}

/// One endpoint: a display name, a request template, the request budget and
/// an optional concurrency cap.
#[derive(Debug)]
pub struct HammerInfo {
    pub name: String,
    pub request: RequestInfo,
    pub count: u64,
    pub max_concurrency: Option<u64>,
}

/// A whole configuration: the declared resources and the endpoints, with the
/// global defaults already merged in.
#[derive(Debug)]
pub struct HammerFile {
    pub resources: Vec<(String, Value)>,
    pub hammer: Vec<HammerInfo>,
}

// ------------------------------------------------------------------
// Mathematical models of the configuration types.
// ------------------------------------------------------------------
/// Model of a [`Value`].
pub enum ValueModel {
    Formatted(Seq<char>),
    Constant(Seq<char>),
    Request(Box<FromResponseBodyModel>),
}

/// Model of a [`FromResponseBody`]: the extraction is its JSON pointer.
pub struct FromResponseBodyModel {
    pub request: RequestInfoModel,
    pub extract: Option<Seq<char>>,
    pub format: Option<Seq<char>>,
}

/// Model of a cookie or header entry.
pub enum EntryModel {
    Deleted,
    Value(ValueModel),
}

/// Model of a [`RequestInfo`].
pub struct RequestInfoModel {
    pub uri: Seq<char>,
    pub method: Seq<char>,
    pub cookies: Seq<(Seq<char>, EntryModel)>,
    pub headers: Seq<(Seq<char>, EntryModel)>,
    pub body: Box<ValueModel>,
}

pub open spec fn value_model(v: Value) -> ValueModel
    decreases v,
{
    match v {
        Value::Formatted(s) => ValueModel::Formatted(s@),
        Value::Constant(s) => ValueModel::Constant(s@),
        Value::Request(frb) => ValueModel::Request(Box::new(frb_model(*frb))),
    }
}

pub open spec fn frb_model(f: FromResponseBody) -> FromResponseBodyModel
    decreases f,
{
    FromResponseBodyModel {
        request: request_model(f.request),
        extract: match f.extract {
            Some(BodyExtract::Json { pointer }) => Some(pointer@),
            None => None,
        },
        format: match f.format {
            Some(s) => Some(s@),
            None => None,
        },
    }
}

pub open spec fn entry_model(e: MaybeDeleted) -> EntryModel
    decreases e,
{
    match e {
        MaybeDeleted::Deleted(_) => EntryModel::Deleted,
        MaybeDeleted::Value(v) => EntryModel::Value(value_model(v)),
    }
}

pub open spec fn entries_model(s: Seq<(String, MaybeDeleted)>) -> Seq<(Seq<char>, EntryModel)>
    decreases s,
{
    if s.len() == 0 {
        Seq::empty()
    } else {
        entries_model(s.drop_last()).push((s.last().0@, entry_model(s.last().1)))
    }
}

pub open spec fn request_model(r: RequestInfo) -> RequestInfoModel
    decreases r,
{
    RequestInfoModel {
        uri: r.uri@,
        method: r.method@,
        cookies: entries_model(r.cookies@),
        headers: entries_model(r.headers@),
        body: Box::new(value_model(*r.body)),
    }
}

/// The model of an entry list indexes like the list itself.
pub proof fn lemma_entries_model_len(s: Seq<(String, MaybeDeleted)>)
    ensures
        entries_model(s).len() == s.len(),
        forall|i: int|
            0 <= i < s.len() ==> #[trigger] entries_model(s)[i] == (
            s[i].0@,
            entry_model(s[i].1),
            ),
    decreases s,
{
    if s.len() > 0 {
        lemma_entries_model_len(s.drop_last());
    }
}

impl Clone for BodyExtract {
    fn clone(&self) -> (r: Self)
        ensures
            r == *self,
    {
        match self {
            BodyExtract::Json { pointer } => BodyExtract::Json { pointer: pointer.clone() },
        }
    }
}

impl Clone for Value {
    fn clone(&self) -> (r: Self)
        ensures
            value_model(r) == value_model(*self),
        decreases self,
    {
        match self {
            Value::Formatted(s) => Value::Formatted(s.clone()),
            Value::Constant(s) => Value::Constant(s.clone()),
            Value::Request(frb) => Value::Request(Box::new((**frb).clone())),
        }
    }
}

impl Clone for MaybeDeleted {
    fn clone(&self) -> (r: Self)
        ensures
            entry_model(r) == entry_model(*self),
        decreases self,
    {
        match self {
            MaybeDeleted::Deleted(d) => MaybeDeleted::Deleted(*d),
            MaybeDeleted::Value(v) => MaybeDeleted::Value(v.clone()),
        }
    }
}

/// Clone a cookie or header entry list.
fn clone_entries(v: &Vec<(String, MaybeDeleted)>) -> (r: Vec<(String, MaybeDeleted)>)
    ensures
        entries_model(r@) == entries_model(v@),
    decreases v@,
{
    proof {
        lemma_entries_model_len(v@);
    }
    let mut out: Vec<(String, MaybeDeleted)> = Vec::new();
    let mut i: usize = 0;
    while i < v.len()
        invariant
            i <= v@.len(),
            entries_model(v@).len() == v@.len(),
            forall|j: int|
                0 <= j < v@.len() ==> #[trigger] entries_model(v@)[j] == (
                v@[j].0@,
                entry_model(v@[j].1),
                ),
            entries_model(out@) =~= entries_model(v@).subrange(0, i as int),
        decreases v@.len() - i,
    {
        let pair = &v[i];
        let cloned = (pair.0.clone(), pair.1.clone());
        let ghost cloned_g = cloned;
        let ghost out_old = out@;
        out.push(cloned);
        proof {
            assert(out@.drop_last() =~= out_old);
            assert(out@.last() == cloned_g);
            lemma_entries_model_len(out@);
            assert(entries_model(out@) =~= entries_model(v@).subrange(0, i + 1));
        }
        i = i + 1;
    }
    proof {
        assert(entries_model(v@).subrange(0, v@.len() as int) =~= entries_model(v@));
    }
    out
}

impl Clone for RequestInfo {
    fn clone(&self) -> (r: Self)
        ensures
            request_model(r) == request_model(*self),
        decreases self,
    {
        RequestInfo {
            uri: self.uri.clone(),
            method: self.method.clone(),
            cookies: clone_entries(&self.cookies),
            headers: clone_entries(&self.headers),
            body: Box::new((*self.body).clone()),
        }
    }
}

impl Clone for FromResponseBody {
    fn clone(&self) -> (r: Self)
        ensures
            frb_model(r) == frb_model(*self),
        decreases self,
    {
        FromResponseBody {
            request: self.request.clone(),
            extract: match &self.extract {
                Some(e) => Some(e.clone()),
                None => None,
            },
            format: match &self.format {
                Some(s) => Some(s.clone()),
                None => None,
            },
        }
    }
}

// ------------------------------------------------------------------
// The string heuristic: does a plain string stand for a template?
// ------------------------------------------------------------------
/// A plain configuration string that contains a brace is read as a template;
/// any other string is already a constant. This is a documented heuristic of
/// the configuration format, not a syntax check.
pub open spec fn value_of_string(s: Seq<char>) -> ValueModel {
    if s.contains('{') || s.contains('}') {
        ValueModel::Formatted(s)
    } else {
        ValueModel::Constant(s)
    }
}

/// Does the string contain `{` or `}`?
fn has_brace(s: &str) -> (r: bool)
    ensures
        r == (s@.contains('{') || s@.contains('}')),
{
    let len = s.unicode_len();
    let mut i: usize = 0;
    while i < len
        invariant
            i <= len,
            len == s@.len(),
            forall|j: int| 0 <= j < i ==> s@[j] != '{' && s@[j] != '}',
        decreases len - i,
    {
        let c = s.get_char(i);
        if c == '{' || c == '}' {
            return true;
        }
        i = i + 1;
    }
    proof {
        assert(!s@.contains('{'));
        assert(!s@.contains('}'));
    }
    false
}

impl From<String> for Value {
    /// Read a plain string as a value, by the brace heuristic.
    fn from(s: String) -> (r: Value) {
        if has_brace(s.as_str()) {
            Value::Formatted(s)
        } else {
            Value::Constant(s)
        }
    }
}

impl vstd::std_specs::convert::FromSpecImpl<String> for Value {
    open spec fn obeys_from_spec() -> bool {
        true
    }

    open spec fn from_spec(s: String) -> Value {
        if s@.contains('{') || s@.contains('}') {
            Value::Formatted(s)
        } else {
            Value::Constant(s)
        }
    }
}

impl HammerInfo {
    /// Put an endpoint together, defaulting the display name to
    /// `"{method} {uri}"` when none was configured.
    pub fn named(
        name: Option<String>,
        request: RequestInfo,
        count: u64,
        max_concurrency: Option<u64>,
    ) -> (r: HammerInfo)
        ensures
            r.request == request,
            r.count == count,
            r.max_concurrency == max_concurrency,
            match name {
                Some(n) => r.name == n,
                None => r.name@ == request.method@ + seq![' '] + request.uri@,
            },
    {
        let name = match name {
            Some(n) => n,
            None => {
                let mut n = String::new();
                n.append(request.method.as_str());
                push_char(&mut n, ' ');
                n.append(request.uri.as_str());
                proof {
                    assert(n@ =~= request.method@ + seq![' '] + request.uri@);
                }
                n
            },
        };
        HammerInfo { name, request, count, max_concurrency }
    }
}

// ------------------------------------------------------------------
// Merging global defaults into an endpoint (the override rules).
// ------------------------------------------------------------------
/// Does an entry list hold this name?
pub open spec fn entries_contain(s: Seq<(Seq<char>, EntryModel)>, k: Seq<char>) -> bool {
    exists|i: int| 0 <= i < s.len() && s[i].0 == k
}

/// The entry a name resolves to: the first with that name.
pub open spec fn entries_lookup(s: Seq<(Seq<char>, EntryModel)>, k: Seq<char>) -> Option<
    EntryModel,
>
    decreases s.len(),
{
    if s.len() == 0 {
        None
    } else if s[0].0 == k {
        Some(s[0].1)
    } else {
        entries_lookup(s.drop_first(), k)
    }
}

/// Global defaults merged into an endpoint's own entries: a global pair is
/// appended (as a value, by the brace heuristic) only when the endpoint does
/// not mention the name itself — endpoint entries, including deletions,
/// always win.
pub open spec fn merge_entries(
    local: Seq<(Seq<char>, EntryModel)>,
    globals: Seq<(Seq<char>, Seq<char>)>,
) -> Seq<(Seq<char>, EntryModel)>
    decreases globals.len(),
{
    if globals.len() == 0 {
        local
    } else {
        let k = globals[0].0;
        let v = globals[0].1;
        let with_first = if entries_contain(local, k) {
            local
        } else {
            local.push((k, EntryModel::Value(value_of_string(v))))
        };
        merge_entries(with_first, globals.drop_first())
    }
}

/// Model of a list of global `name = value` pairs.
pub open spec fn pairs_model(s: Seq<(String, String)>) -> Seq<(Seq<char>, Seq<char>)> {
    s.map_values(|p: (String, String)| (p.0@, p.1@))
}

/// Does an entry list hold this name? (Executable form.)
fn entries_contain_exec(entries: &Vec<(String, MaybeDeleted)>, k: &String) -> (r: bool)
    ensures
        r == entries_contain(entries_model(entries@), k@),
{
    proof {
        lemma_entries_model_len(entries@);
    }
    let mut i: usize = 0;
    while i < entries.len()
        invariant
            i <= entries@.len(),
            entries_model(entries@).len() == entries@.len(),
            forall|j: int|
                0 <= j < entries@.len() ==> #[trigger] entries_model(entries@)[j].0
                    == entries@[j].0@,
            forall|j: int| 0 <= j < i ==> entries_model(entries@)[j].0 != k@,
        decreases entries@.len() - i,
    {
        let pair = &entries[i];
        if pair.0 == *k {
            proof {
                assert(entries_model(entries@)[i as int].0 == k@);
            }
            return true;
        }
        i = i + 1;
    }
    false
}

/// Merge global defaults into one entry list. (Executable form of
/// [`merge_entries`].)
pub fn merge_globals(entries: Vec<(String, MaybeDeleted)>, globals: &Vec<(String, String)>) -> (r:
    Vec<(String, MaybeDeleted)>)
    ensures
        entries_model(r@) == merge_entries(entries_model(entries@), pairs_model(globals@)),
{
    let mut out = entries;
    let ghost initial = entries_model(out@);
    proof {
        assert(pairs_model(globals@).skip(0) =~= pairs_model(globals@));
    }
    let mut g: usize = 0;
    while g < globals.len()
        invariant
            g <= globals@.len(),
            merge_entries(entries_model(out@), pairs_model(globals@).skip(g as int))
                == merge_entries(initial, pairs_model(globals@)),
        decreases globals@.len() - g,
    {
        let ghost before = entries_model(out@);
        let ghost before_vec = out@;
        let k = globals[g].0.clone();
        if !entries_contain_exec(&out, &k) {
            let v = globals[g].1.clone();
            let val = Value::from(v);
            let entry = MaybeDeleted::Value(val);
            let ghost entry_g = entry;
            let ghost k_g = k;
            proof {
                assert(entry_model(entry_g) == EntryModel::Value(
                    value_of_string(globals@[g as int].1@),
                ));
            }
            out.push((k, entry));
            proof {
                assert(out@.drop_last() =~= before_vec);
                assert(out@.last() == (k_g, entry_g));
                assert(entries_model(out@) =~= before.push(
                    (
                        globals@[g as int].0@,
                        EntryModel::Value(value_of_string(globals@[g as int].1@)),
                    ),
                ));
            }
        }
        proof {
            assert(pairs_model(globals@).skip(g as int).drop_first() =~= pairs_model(
                globals@,
            ).skip(g + 1));
            assert(pairs_model(globals@).skip(g as int)[0] == (
                globals@[g as int].0@,
                globals@[g as int].1@,
            ));
        }
        g = g + 1;
    }
    proof {
        assert(pairs_model(globals@).skip(globals@.len() as int) =~= Seq::empty());
    }
    out
}

/// A name is found in a list exactly when looking it up yields an entry.
pub proof fn lemma_lookup_contains(s: Seq<(Seq<char>, EntryModel)>, k: Seq<char>)
    ensures
        entries_contain(s, k) <==> entries_lookup(s, k) is Some,
    decreases s.len(),
{
    if s.len() > 0 && s[0].0 != k {
        lemma_lookup_contains(s.drop_first(), k);
        if entries_contain(s, k) {
            let i = choose|i: int| 0 <= i < s.len() && s[i].0 == k;
            assert(s.drop_first()[i - 1].0 == k);
        }
        if entries_contain(s.drop_first(), k) {
            let i = choose|i: int| 0 <= i < s.drop_first().len() && s.drop_first()[i].0 == k;
            assert(s[i + 1].0 == k);
        }
    }
}

/// What appending one entry does to a lookup: an earlier entry still wins,
/// the new entry answers for its own name, and other names stay absent.
pub proof fn lemma_lookup_push(
    s: Seq<(Seq<char>, EntryModel)>,
    p: (Seq<char>, EntryModel),
    k: Seq<char>,
)
    ensures
        entries_lookup(s.push(p), k) == if entries_contain(s, k) {
            entries_lookup(s, k)
        } else if p.0 == k {
            Some(p.1)
        } else {
            None::<EntryModel>
        },
        entries_contain(s.push(p), k) <==> entries_contain(s, k) || p.0 == k,
    decreases s.len(),
{
    lemma_lookup_contains(s, k);
    lemma_lookup_contains(s.push(p), k);
    if s.len() == 0 {
        assert(s.push(p)[0] == p);
        assert(s.push(p).drop_first() =~= Seq::empty());
    } else {
        assert(s.push(p).drop_first() =~= s.drop_first().push(p));
        lemma_lookup_push(s.drop_first(), p, k);
        if s[0].0 != k {
            lemma_lookup_contains(s.drop_first(), k);
            if entries_contain(s, k) {
                let i = choose|i: int| 0 <= i < s.len() && s[i].0 == k;
                assert(s.drop_first()[i - 1].0 == k);
            }
        }
    }
}

/// Does a list of global pairs hold this name?
pub open spec fn pairs_contain(s: Seq<(Seq<char>, Seq<char>)>, k: Seq<char>) -> bool {
    exists|i: int| 0 <= i < s.len() && s[i].0 == k
}

/// The first global value under this name.
pub open spec fn pairs_first(s: Seq<(Seq<char>, Seq<char>)>, k: Seq<char>) -> Seq<char>
    decreases s.len(),
{
    if s.len() == 0 {
        Seq::empty()
    } else if s[0].0 == k {
        s[0].1
    } else {
        pairs_first(s.drop_first(), k)
    }
}

/// Override and delete precedence: after the merge, a name configured by the
/// endpoint itself — whether a value or a deletion — resolves exactly as the
/// endpoint wrote it; a name only the global defaults configure resolves to
/// the first global value, read by the brace heuristic; a name neither
/// configures stays absent.
pub proof fn lemma_merge_precedence(
    local: Seq<(Seq<char>, EntryModel)>,
    globals: Seq<(Seq<char>, Seq<char>)>,
    k: Seq<char>,
)
    ensures
        entries_contain(local, k) ==> entries_lookup(merge_entries(local, globals), k)
            == entries_lookup(local, k),
        !entries_contain(local, k) && pairs_contain(globals, k) ==> entries_lookup(
            merge_entries(local, globals),
            k,
        ) == Some(EntryModel::Value(value_of_string(pairs_first(globals, k)))),
        !entries_contain(local, k) && !pairs_contain(globals, k) ==> entries_lookup(
            merge_entries(local, globals),
            k,
        ) is None,
    decreases globals.len(),
{
    lemma_lookup_contains(local, k);
    if globals.len() == 0 {
    } else {
        let k0 = globals[0].0;
        let v0 = globals[0].1;
        let with_first = if entries_contain(local, k0) {
            local
        } else {
            local.push((k0, EntryModel::Value(value_of_string(v0))))
        };
        lemma_lookup_push(local, (k0, EntryModel::Value(value_of_string(v0))), k);
        lemma_merge_precedence(with_first, globals.drop_first(), k);
        if k0 != k {
            if pairs_contain(globals, k) {
                let i = choose|i: int| 0 <= i < globals.len() && globals[i].0 == k;
                assert(globals.drop_first()[i - 1].0 == k);
            }
            if pairs_contain(globals.drop_first(), k) {
                let i = choose|i: int|
                    0 <= i < globals.drop_first().len() && globals.drop_first()[i].0 == k;
                assert(globals[i + 1].0 == k);
            }
        }
    }
}

/// Merge the global cookie and header defaults into every endpoint.
///
/// Each endpoint keeps its own entries — values and deletions alike — and
/// inherits a global entry only for names it does not mention itself.
pub fn apply_defaults(
    hammer: Vec<HammerInfo>,
    cookies: &Vec<(String, String)>,
    headers: &Vec<(String, String)>,
) -> (r: Vec<HammerInfo>)
    ensures
        r@.len() == hammer@.len(),
        forall|i: int|
            0 <= i < hammer@.len() ==> {
                let before = #[trigger] hammer@[i];
                let after = r@[i];
                &&& after.name == before.name
                &&& after.count == before.count
                &&& after.max_concurrency == before.max_concurrency
                &&& after.request.uri == before.request.uri
                &&& after.request.method == before.request.method
                &&& after.request.body == before.request.body
                &&& entries_model(after.request.cookies@) == merge_entries(
                    entries_model(before.request.cookies@),
                    pairs_model(cookies@),
                )
                &&& entries_model(after.request.headers@) == merge_entries(
                    entries_model(before.request.headers@),
                    pairs_model(headers@),
                )
            },
{
    let mut rest = hammer;
    let mut out: Vec<HammerInfo> = Vec::new();
    let ghost orig = rest@;
    while rest.len() > 0
        invariant
            out@.len() + rest@.len() == orig.len(),
            rest@ =~= orig.skip(out@.len() as int),
            forall|i: int|
                0 <= i < out@.len() ==> {
                    let before = #[trigger] orig[i];
                    let after = out@[i];
                    &&& after.name == before.name
                    &&& after.count == before.count
                    &&& after.max_concurrency == before.max_concurrency
                    &&& after.request.uri == before.request.uri
                    &&& after.request.method == before.request.method
                    &&& after.request.body == before.request.body
                    &&& entries_model(after.request.cookies@) == merge_entries(
                        entries_model(before.request.cookies@),
                        pairs_model(cookies@),
                    )
                    &&& entries_model(after.request.headers@) == merge_entries(
                        entries_model(before.request.headers@),
                        pairs_model(headers@),
                    )
                },
        decreases rest@.len(),
    {
        let h = rest.remove(0);
        let HammerInfo { name, request, count, max_concurrency } = h;
        let RequestInfo { uri, method, cookies: own_cookies, headers: own_headers, body } = request;
        let merged_cookies = merge_globals(own_cookies, cookies);
        let merged_headers = merge_globals(own_headers, headers);
        out.push(
            HammerInfo {
                name,
                request: RequestInfo {
                    uri,
                    method,
                    cookies: merged_cookies,
                    headers: merged_headers,
                    body,
                },
                count,
                max_concurrency,
            },
        );
    }
    out
}

} // verus!
