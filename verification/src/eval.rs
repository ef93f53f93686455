//! The value resolver.
//!
//! A declarative [`Value`] resolves to a concrete string: constants stand
//! for themselves, templates splice in named resources, and derived values
//! issue a nested request and read its response. Resolution is stated here
//! as a functional interpreter over a model state — the resource table and
//! the request/response cache — and the executable resolver is proved to
//! follow it step for step.
//!
//! The resolver itself never touches the network. When it needs a response
//! that the cache does not hold, it stops and hands the concrete request
//! out; the shell performs the call, feeds the body back in with
//! [`Evaluator::provide_response`], and starts resolution again. The cache
//! then answers without a second call, so each distinct request goes on the
//! wire at most once per run.
//!
//! A resource is resolved under a busy mark: a reference back to a resource
//! whose mark is set is a cyclic dependency and fails at once, the way a
//! non-blocking lock acquisition fails instead of deadlocking. While the
//! mark is set the slot holds an empty placeholder; the mark alone decides.
//! On success the slot is overwritten with the resolved constant, so every
//! later reference reads the cached value without work.

use crate::config::{
    entries_model, pairs_model, value_model, request_model, frb_model, EntryModel,
    FromResponseBody, FromResponseBodyModel, MaybeDeleted, RequestInfo, RequestInfoModel, Value,
    ValueModel, BodyExtract,
};
use crate::cookie::{cookie_extended, Cookie};
use crate::error::{err_model, ErrModel, EvalError};
use crate::format::{
    format_one, marker_count, parse_from, parse_template, segs_model, spliced, SegModel,
    TemplateSegment,
};
use crate::json::{extract_json_pointer, json_pointer_value, json_valid, JsonExtract};
use crate::request::{check_header_value, valid_header_value, AlmostRequest, ReqModel};
use crate::text::{
    ascii_lowercase, lower_ascii, push_char, str_compare, string_from_utf8, Cmp,
};
use vstd::multiset::Multiset;
use vstd::prelude::*;
use vstd::string::StringSliceAdditionalSpecFns;
use vstd::string::StrSliceExecFns;
use vstd::utf8::encode_utf8;

verus! {

// ------------------------------------------------------------------
// The model state and the outcome of one resolution attempt.
// ------------------------------------------------------------------
/// The cache identity of a request: header order is already immaterial.
pub struct CacheKey {
    pub uri: Seq<char>,
    pub method: Seq<char>,
    pub headers: Multiset<(Seq<char>, Seq<char>)>,
    pub body: Seq<char>,
}

/// The identity a concrete request caches under.
pub open spec fn cache_key(r: ReqModel) -> CacheKey {
    CacheKey { uri: r.uri, method: r.method, headers: r.headers.to_multiset(), body: r.body }
}

/// Model of the evaluator: each resource's current expression and busy
/// mark, and the request/response cache.
pub struct EvalState {
    pub resources: Map<Seq<char>, (ValueModel, bool)>,
    pub cache: Map<CacheKey, Seq<char>>,
}

/// How one resolution attempt ends: a resolved payload, a request whose
/// response is needed from the shell, or an error.
pub enum StepModel<T> {
    Done(T),
    NeedHttp(CacheKey),
    Failed(ErrModel),
}

/// A step's outcome together with the state it leaves behind.
pub struct Resolution<T> {
    pub out: StepModel<T>,
    pub st: EvalState,
}

/// The name of the header that carries the assembled cookies.
pub open spec fn cookie_header_name() -> Seq<char> {
    "cookie"@
}

/// The resource prefix every placeholder must carry.
pub open spec fn resource_prefix() -> Seq<char> {
    "resources."@
}

/// Does a placeholder body name a resource?
pub open spec fn has_resource_prefix(body: Seq<char>) -> bool {
    body.len() >= 10 && body.subrange(0, 10) == resource_prefix()
}

/// The resource name inside a placeholder body.
pub open spec fn resource_name_of(body: Seq<char>) -> Seq<char> {
    body.subrange(10, body.len() as int)
}

/// Extraction and formatting applied to a response body: read the JSON
/// pointer if one is configured, then splice the result into the format
/// string if one is configured.
pub open spec fn finish_value(
    body: Seq<char>,
    extract: Option<Seq<char>>,
    format: Option<Seq<char>>,
) -> Result<Seq<char>, ErrModel> {
    let extracted = match extract {
        None => Ok(body),
        Some(pointer) => if !json_valid(body) {
            Err(ErrModel::BodyNotJson)
        } else {
            match json_pointer_value(body, pointer) {
                None => Err(ErrModel::PointerMissing),
                Some(x) => Ok(x),
            }
        },
    };
    match extracted {
        Err(e) => Err(e),
        Ok(x) => match format {
            None => Ok(x),
            Some(f) => if marker_count(f, f.len() as int) == 1 {
                Ok(spliced(f, x))
            } else {
                Err(ErrModel::BadFormatString)
            },
        },
    }
}

// ------------------------------------------------------------------
// The interpreter. Every recursive call consumes one unit of fuel, so
// resolution is total; an adversarial configuration that recurses past
// the configured bound fails with a depth error instead of diverging.
// ------------------------------------------------------------------
/// Resolve one value.
pub open spec fn resolve_value_spec(st: EvalState, v: ValueModel, fuel: nat) -> Resolution<
    Seq<char>,
>
    decreases fuel, 3int,
{
    if fuel == 0 {
        Resolution { out: StepModel::Failed(ErrModel::DepthExceeded), st }
    } else {
        match v {
            ValueModel::Constant(s) => Resolution { out: StepModel::Done(s), st },
            ValueModel::Formatted(s) => match parse_from(s, 0) {
                Err(e) => Resolution { out: StepModel::Failed(err_model(e)), st },
                Ok(segs) => resolve_segments_spec(st, segs, 0, Seq::empty(), (fuel - 1) as nat),
            },
            ValueModel::Request(frb) => resolve_request_spec(st, *frb, (fuel - 1) as nat),
        }
    }
}

/// Resolve a template's segments left to right, accumulating the output.
pub open spec fn resolve_segments_spec(
    st: EvalState,
    segs: Seq<SegModel>,
    i: int,
    acc: Seq<char>,
    fuel: nat,
) -> Resolution<Seq<char>>
    decreases fuel, 0int,
{
    if fuel == 0 {
        Resolution { out: StepModel::Failed(ErrModel::DepthExceeded), st }
    } else if i < 0 || i >= segs.len() {
        Resolution { out: StepModel::Done(acc), st }
    } else {
        match segs[i] {
            SegModel::Lit(t) => resolve_segments_spec(st, segs, i + 1, acc + t, (fuel - 1) as nat),
            SegModel::Placeholder(body) => if !has_resource_prefix(body) {
                Resolution { out: StepModel::Failed(ErrModel::BadPlaceholderPrefix(body)), st }
            } else {
                let r = resolve_resource_spec(st, resource_name_of(body), (fuel - 1) as nat);
                match r.out {
                    StepModel::Done(val) => resolve_segments_spec(
                        r.st,
                        segs,
                        i + 1,
                        acc + val,
                        (fuel - 1) as nat,
                    ),
                    StepModel::NeedHttp(req) => Resolution {
                        out: StepModel::NeedHttp(req),
                        st: r.st,
                    },
                    StepModel::Failed(e) => Resolution { out: StepModel::Failed(e), st: r.st },
                }
            },
        }
    }
}

/// Resolve a named resource under the busy-mark protocol: an unknown name
/// fails; a busy mark is a cyclic dependency; otherwise the stored
/// expression is resolved under the mark and, on success, memoized in place
/// as a constant. The mark is cleared on every way out.
pub open spec fn resolve_resource_spec(st: EvalState, name: Seq<char>, fuel: nat) -> Resolution<
    Seq<char>,
>
    decreases fuel, 0int,
{
    if fuel == 0 {
        Resolution { out: StepModel::Failed(ErrModel::DepthExceeded), st }
    } else if !st.resources.contains_key(name) {
        Resolution { out: StepModel::Failed(ErrModel::UnknownResource(name)), st }
    } else if st.resources[name].1 {
        Resolution { out: StepModel::Failed(ErrModel::CyclicDependency), st }
    } else {
        let v = st.resources[name].0;
        let marked = EvalState {
            resources: st.resources.insert(name, (ValueModel::Constant(Seq::empty()), true)),
            cache: st.cache,
        };
        let r = resolve_value_spec(marked, v, (fuel - 1) as nat);
        match r.out {
            StepModel::Done(s) => Resolution {
                out: StepModel::Done(s),
                st: EvalState {
                    resources: r.st.resources.insert(name, (ValueModel::Constant(s), false)),
                    cache: r.st.cache,
                },
            },
            StepModel::NeedHttp(req) => Resolution {
                out: StepModel::NeedHttp(req),
                st: EvalState {
                    resources: r.st.resources.insert(name, (v, false)),
                    cache: r.st.cache,
                },
            },
            StepModel::Failed(e) => Resolution {
                out: StepModel::Failed(e),
                st: EvalState {
                    resources: r.st.resources.insert(name, (v, false)),
                    cache: r.st.cache,
                },
            },
        }
    }
}

/// Assemble the cookie header line: deleted entries are dropped, the rest
/// are resolved and appended percent-encoded.
pub open spec fn resolve_cookies_spec(
    st: EvalState,
    entries: Seq<(Seq<char>, EntryModel)>,
    i: int,
    line: Seq<char>,
    fuel: nat,
) -> Resolution<Seq<char>>
    decreases fuel, 0int,
{
    if fuel == 0 {
        Resolution { out: StepModel::Failed(ErrModel::DepthExceeded), st }
    } else if i < 0 || i >= entries.len() {
        Resolution { out: StepModel::Done(line), st }
    } else {
        match entries[i].1 {
            EntryModel::Deleted => resolve_cookies_spec(st, entries, i + 1, line, (fuel - 1) as nat),
            EntryModel::Value(v) => {
                let r = resolve_value_spec(st, v, (fuel - 1) as nat);
                match r.out {
                    StepModel::Done(s) => resolve_cookies_spec(
                        r.st,
                        entries,
                        i + 1,
                        cookie_extended(line, encode_utf8(entries[i].0), encode_utf8(s)),
                        (fuel - 1) as nat,
                    ),
                    StepModel::NeedHttp(req) => Resolution {
                        out: StepModel::NeedHttp(req),
                        st: r.st,
                    },
                    StepModel::Failed(e) => Resolution { out: StepModel::Failed(e), st: r.st },
                }
            },
        }
    }
}

/// Resolve the header entries: deleted entries are dropped, names are
/// carried lowercase, and every resolved value must be wire-valid.
pub open spec fn resolve_headers_spec(
    st: EvalState,
    entries: Seq<(Seq<char>, EntryModel)>,
    i: int,
    acc: Seq<(Seq<char>, Seq<char>)>,
    fuel: nat,
) -> Resolution<Seq<(Seq<char>, Seq<char>)>>
    decreases fuel, 0int,
{
    if fuel == 0 {
        Resolution { out: StepModel::Failed(ErrModel::DepthExceeded), st }
    } else if i < 0 || i >= entries.len() {
        Resolution { out: StepModel::Done(acc), st }
    } else {
        match entries[i].1 {
            EntryModel::Deleted => resolve_headers_spec(st, entries, i + 1, acc, (fuel - 1) as nat),
            EntryModel::Value(v) => {
                let r = resolve_value_spec(st, v, (fuel - 1) as nat);
                match r.out {
                    StepModel::Done(s) => if !valid_header_value(encode_utf8(s)) {
                        Resolution { out: StepModel::Failed(ErrModel::InvalidHeaderValue(s)), st: r.st }
                    } else {
                        resolve_headers_spec(
                            r.st,
                            entries,
                            i + 1,
                            acc.push((lower_ascii(entries[i].0), s)),
                            (fuel - 1) as nat,
                        )
                    },
                    StepModel::NeedHttp(req) => Resolution {
                        out: StepModel::NeedHttp(req),
                        st: r.st,
                    },
                    StepModel::Failed(e) => Resolution { out: StepModel::Failed(e), st: r.st },
                }
            },
        }
    }
}

/// Build a request template into its cache identity: the cookie line, the
/// resolved headers, and the resolved body.
pub open spec fn build_request_spec(st: EvalState, r: RequestInfoModel, fuel: nat) -> Resolution<
    CacheKey,
>
    decreases fuel, 1int,
{
    if fuel == 0 {
        Resolution { out: StepModel::Failed(ErrModel::DepthExceeded), st }
    } else {
        let rc = resolve_cookies_spec(st, r.cookies, 0, Seq::empty(), (fuel - 1) as nat);
        match rc.out {
            StepModel::NeedHttp(req) => Resolution { out: StepModel::NeedHttp(req), st: rc.st },
            StepModel::Failed(e) => Resolution { out: StepModel::Failed(e), st: rc.st },
            StepModel::Done(line) => {
                let rh = resolve_headers_spec(
                    rc.st,
                    r.headers,
                    0,
                    seq![(cookie_header_name(), line)],
                    (fuel - 1) as nat,
                );
                match rh.out {
                    StepModel::NeedHttp(req) => Resolution {
                        out: StepModel::NeedHttp(req),
                        st: rh.st,
                    },
                    StepModel::Failed(e) => Resolution { out: StepModel::Failed(e), st: rh.st },
                    StepModel::Done(hdrs) => {
                        let rb = resolve_value_spec(rh.st, *r.body, (fuel - 1) as nat);
                        match rb.out {
                            StepModel::NeedHttp(req) => Resolution {
                                out: StepModel::NeedHttp(req),
                                st: rb.st,
                            },
                            StepModel::Failed(e) => Resolution {
                                out: StepModel::Failed(e),
                                st: rb.st,
                            },
                            StepModel::Done(body) => Resolution {
                                out: StepModel::Done(
                                    CacheKey {
                                        uri: r.uri,
                                        method: r.method,
                                        headers: hdrs.to_multiset(),
                                        body,
                                    },
                                ),
                                st: rb.st,
                            },
                        }
                    },
                }
            },
        }
    }
}

/// Resolve a derived value: build the nested request, answer from the cache
/// or stop for the shell, then extract and format.
pub open spec fn resolve_request_spec(
    st: EvalState,
    f: FromResponseBodyModel,
    fuel: nat,
) -> Resolution<Seq<char>>
    decreases fuel, 2int,
{
    if fuel == 0 {
        Resolution { out: StepModel::Failed(ErrModel::DepthExceeded), st }
    } else {
        let rb = build_request_spec(st, f.request, (fuel - 1) as nat);
        match rb.out {
            StepModel::NeedHttp(req) => Resolution { out: StepModel::NeedHttp(req), st: rb.st },
            StepModel::Failed(e) => Resolution { out: StepModel::Failed(e), st: rb.st },
            StepModel::Done(key) => if !rb.st.cache.contains_key(key) {
                Resolution { out: StepModel::NeedHttp(key), st: rb.st }
            } else {
                match finish_value(rb.st.cache[key], f.extract, f.format) {
                    Ok(s) => Resolution { out: StepModel::Done(s), st: rb.st },
                    Err(e) => Resolution { out: StepModel::Failed(e), st: rb.st },
                }
            },
        }
    }
}

// ------------------------------------------------------------------
// Laws of the interpreter.
// ------------------------------------------------------------------
/// Cycle detection: a resource that is already being resolved — its busy
/// mark set somewhere up the current resolution chain — fails at once with
/// a cyclic-dependency error and changes nothing. Together with the fuel
/// bound, which makes every resolution a total function, a self-referential
/// resource graph reports its cycle instead of hanging.
pub proof fn lemma_cycle_detected(st: EvalState, name: Seq<char>, fuel: nat)
    requires
        fuel > 0,
        st.resources.contains_key(name),
        st.resources[name].1,
    ensures
        resolve_resource_spec(st, name, fuel) == (Resolution {
            out: StepModel::<Seq<char>>::Failed(ErrModel::CyclicDependency),
            st,
        }),
{
}

/// Memoization: once a resource has resolved to a constant, every further
/// reference reads that same constant, with no state change and no request
/// issued.
pub proof fn lemma_memoized_resource(st: EvalState, name: Seq<char>, s: Seq<char>, fuel: nat)
    requires
        fuel >= 2,
        st.resources.contains_key(name),
        st.resources[name] == (ValueModel::Constant(s), false),
    ensures
        resolve_resource_spec(st, name, fuel) == (Resolution { out: StepModel::Done(s), st }),
{
    let marked = EvalState {
        resources: st.resources.insert(name, (ValueModel::Constant(Seq::empty()), true)),
        cache: st.cache,
    };
    let r = resolve_value_spec(marked, ValueModel::Constant(s), (fuel - 1) as nat);
    assert(r.out == StepModel::Done(s) && r.st == marked);
    assert(marked.resources.insert(name, (ValueModel::Constant(s), false)) =~= st.resources);
}

/// Resolution never touches the cache: only the shell, answering a request
/// the resolver handed out, ever adds to it. And a request is handed out
/// only when the cache does not already hold its identity — so with the
/// shell answering each handed-out request once, each distinct request goes
/// on the wire at most once per run.
pub proof fn lemma_value_cache_stable(st: EvalState, v: ValueModel, fuel: nat)
    ensures
        resolve_value_spec(st, v, fuel).st.cache == st.cache,
        resolve_value_spec(st, v, fuel).out matches StepModel::NeedHttp(k)
            ==> !st.cache.contains_key(k),
    decreases fuel, 3int,
{
    if fuel > 0 {
        match v {
            ValueModel::Constant(_) => {},
            ValueModel::Formatted(s) => match parse_from(s, 0) {
                Err(_) => {},
                Ok(segs) => {
                    lemma_segments_cache_stable(st, segs, 0, Seq::empty(), (fuel - 1) as nat);
                },
            },
            ValueModel::Request(frb) => {
                lemma_request_cache_stable(st, *frb, (fuel - 1) as nat);
            },
        }
    }
}

proof fn lemma_segments_cache_stable(
    st: EvalState,
    segs: Seq<SegModel>,
    i: int,
    acc: Seq<char>,
    fuel: nat,
)
    ensures
        resolve_segments_spec(st, segs, i, acc, fuel).st.cache == st.cache,
        resolve_segments_spec(st, segs, i, acc, fuel).out matches StepModel::NeedHttp(k)
            ==> !st.cache.contains_key(k),
    decreases fuel, 0int,
{
    if fuel > 0 && 0 <= i < segs.len() {
        match segs[i] {
            SegModel::Lit(t) => {
                lemma_segments_cache_stable(st, segs, i + 1, acc + t, (fuel - 1) as nat);
            },
            SegModel::Placeholder(body) => {
                if has_resource_prefix(body) {
                    let r = resolve_resource_spec(st, resource_name_of(body), (fuel - 1) as nat);
                    lemma_resource_cache_stable(st, resource_name_of(body), (fuel - 1) as nat);
                    match r.out {
                        StepModel::Done(val) => {
                            lemma_segments_cache_stable(
                                r.st,
                                segs,
                                i + 1,
                                acc + val,
                                (fuel - 1) as nat,
                            );
                        },
                        _ => {},
                    }
                }
            },
        }
    }
}

proof fn lemma_resource_cache_stable(st: EvalState, name: Seq<char>, fuel: nat)
    ensures
        resolve_resource_spec(st, name, fuel).st.cache == st.cache,
        resolve_resource_spec(st, name, fuel).out matches StepModel::NeedHttp(k)
            ==> !st.cache.contains_key(k),
    decreases fuel, 0int,
{
    if fuel > 0 && st.resources.contains_key(name) && !st.resources[name].1 {
        let v = st.resources[name].0;
        let marked = EvalState {
            resources: st.resources.insert(name, (ValueModel::Constant(Seq::empty()), true)),
            cache: st.cache,
        };
        lemma_value_cache_stable(marked, v, (fuel - 1) as nat);
    }
}

proof fn lemma_cookies_cache_stable(
    st: EvalState,
    entries: Seq<(Seq<char>, EntryModel)>,
    i: int,
    line: Seq<char>,
    fuel: nat,
)
    ensures
        resolve_cookies_spec(st, entries, i, line, fuel).st.cache == st.cache,
        resolve_cookies_spec(st, entries, i, line, fuel).out matches StepModel::NeedHttp(k)
            ==> !st.cache.contains_key(k),
    decreases fuel, 0int,
{
    if fuel > 0 && 0 <= i < entries.len() {
        match entries[i].1 {
            EntryModel::Deleted => {
                lemma_cookies_cache_stable(st, entries, i + 1, line, (fuel - 1) as nat);
            },
            EntryModel::Value(v) => {
                let r = resolve_value_spec(st, v, (fuel - 1) as nat);
                lemma_value_cache_stable(st, v, (fuel - 1) as nat);
                match r.out {
                    StepModel::Done(s) => {
                        lemma_cookies_cache_stable(
                            r.st,
                            entries,
                            i + 1,
                            cookie_extended(line, encode_utf8(entries[i].0), encode_utf8(s)),
                            (fuel - 1) as nat,
                        );
                    },
                    _ => {},
                }
            },
        }
    }
}

proof fn lemma_headers_cache_stable(
    st: EvalState,
    entries: Seq<(Seq<char>, EntryModel)>,
    i: int,
    acc: Seq<(Seq<char>, Seq<char>)>,
    fuel: nat,
)
    ensures
        resolve_headers_spec(st, entries, i, acc, fuel).st.cache == st.cache,
        resolve_headers_spec(st, entries, i, acc, fuel).out matches StepModel::NeedHttp(k)
            ==> !st.cache.contains_key(k),
    decreases fuel, 0int,
{
    if fuel > 0 && 0 <= i < entries.len() {
        match entries[i].1 {
            EntryModel::Deleted => {
                lemma_headers_cache_stable(st, entries, i + 1, acc, (fuel - 1) as nat);
            },
            EntryModel::Value(v) => {
                let r = resolve_value_spec(st, v, (fuel - 1) as nat);
                lemma_value_cache_stable(st, v, (fuel - 1) as nat);
                match r.out {
                    StepModel::Done(s) => {
                        if valid_header_value(encode_utf8(s)) {
                            lemma_headers_cache_stable(
                                r.st,
                                entries,
                                i + 1,
                                acc.push((lower_ascii(entries[i].0), s)),
                                (fuel - 1) as nat,
                            );
                        }
                    },
                    _ => {},
                }
            },
        }
    }
}

proof fn lemma_build_cache_stable(st: EvalState, r: RequestInfoModel, fuel: nat)
    ensures
        build_request_spec(st, r, fuel).st.cache == st.cache,
        build_request_spec(st, r, fuel).out matches StepModel::NeedHttp(k)
            ==> !st.cache.contains_key(k),
    decreases fuel, 1int,
{
    if fuel > 0 {
        let rc = resolve_cookies_spec(st, r.cookies, 0, Seq::empty(), (fuel - 1) as nat);
        lemma_cookies_cache_stable(st, r.cookies, 0, Seq::empty(), (fuel - 1) as nat);
        match rc.out {
            StepModel::Done(line) => {
                let rh = resolve_headers_spec(
                    rc.st,
                    r.headers,
                    0,
                    seq![(cookie_header_name(), line)],
                    (fuel - 1) as nat,
                );
                lemma_headers_cache_stable(
                    rc.st,
                    r.headers,
                    0,
                    seq![(cookie_header_name(), line)],
                    (fuel - 1) as nat,
                );
                match rh.out {
                    StepModel::Done(_) => {
                        lemma_value_cache_stable(rh.st, *r.body, (fuel - 1) as nat);
                    },
                    _ => {},
                }
            },
            _ => {},
        }
    }
}

proof fn lemma_request_cache_stable(st: EvalState, f: FromResponseBodyModel, fuel: nat)
    ensures
        resolve_request_spec(st, f, fuel).st.cache == st.cache,
        resolve_request_spec(st, f, fuel).out matches StepModel::NeedHttp(k)
            ==> !st.cache.contains_key(k),
    decreases fuel, 2int,
{
    if fuel > 0 {
        lemma_build_cache_stable(st, f.request, (fuel - 1) as nat);
    }
}

/// A resolved resource is stable: once a slot holds a constant with its
/// busy mark clear, no further resolution — of any value, from any endpoint
/// — ever changes that slot. Every reference to a resolved resource, for
/// the rest of the run, observes the same value.
pub proof fn lemma_constants_stable_value(
    st: EvalState,
    v: ValueModel,
    fuel: nat,
    name: Seq<char>,
    s: Seq<char>,
)
    requires
        st.resources.contains_key(name),
        st.resources[name] == (ValueModel::Constant(s), false),
    ensures
        ({
            let r = resolve_value_spec(st, v, fuel);
            r.st.resources.contains_key(name) && r.st.resources[name] == (
                ValueModel::Constant(s),
                false,
            )
        }),
    decreases fuel, 3int,
{
    if fuel > 0 {
        match v {
            ValueModel::Constant(_) => {},
            ValueModel::Formatted(t) => match parse_from(t, 0) {
                Err(_) => {},
                Ok(segs) => {
                    lemma_constants_stable_segments(
                        st,
                        segs,
                        0,
                        Seq::empty(),
                        (fuel - 1) as nat,
                        name,
                        s,
                    );
                },
            },
            ValueModel::Request(frb) => {
                lemma_constants_stable_request(st, *frb, (fuel - 1) as nat, name, s);
            },
        }
    }
}

proof fn lemma_constants_stable_segments(
    st: EvalState,
    segs: Seq<SegModel>,
    i: int,
    acc: Seq<char>,
    fuel: nat,
    name: Seq<char>,
    s: Seq<char>,
)
    requires
        st.resources.contains_key(name),
        st.resources[name] == (ValueModel::Constant(s), false),
    ensures
        ({
            let r = resolve_segments_spec(st, segs, i, acc, fuel);
            r.st.resources.contains_key(name) && r.st.resources[name] == (
                ValueModel::Constant(s),
                false,
            )
        }),
    decreases fuel, 0int,
{
    if fuel > 0 && 0 <= i < segs.len() {
        match segs[i] {
            SegModel::Lit(t) => {
                lemma_constants_stable_segments(st, segs, i + 1, acc + t, (fuel - 1) as nat, name, s);
            },
            SegModel::Placeholder(body) => {
                if has_resource_prefix(body) {
                    let r = resolve_resource_spec(st, resource_name_of(body), (fuel - 1) as nat);
                    lemma_constants_stable_resource(
                        st,
                        resource_name_of(body),
                        (fuel - 1) as nat,
                        name,
                        s,
                    );
                    match r.out {
                        StepModel::Done(val) => {
                            lemma_constants_stable_segments(
                                r.st,
                                segs,
                                i + 1,
                                acc + val,
                                (fuel - 1) as nat,
                                name,
                                s,
                            );
                        },
                        _ => {},
                    }
                }
            },
        }
    }
}

proof fn lemma_constants_stable_resource(
    st: EvalState,
    nm: Seq<char>,
    fuel: nat,
    name: Seq<char>,
    s: Seq<char>,
)
    requires
        st.resources.contains_key(name),
        st.resources[name] == (ValueModel::Constant(s), false),
    ensures
        ({
            let r = resolve_resource_spec(st, nm, fuel);
            r.st.resources.contains_key(name) && r.st.resources[name] == (
                ValueModel::Constant(s),
                false,
            )
        }),
    decreases fuel, 0int,
{
    if fuel > 0 && st.resources.contains_key(nm) && !st.resources[nm].1 {
        let v = st.resources[nm].0;
        let marked = EvalState {
            resources: st.resources.insert(nm, (ValueModel::Constant(Seq::empty()), true)),
            cache: st.cache,
        };
        if nm == name {
            // the resolved constant itself: the slot is restored on every
            // way out with the very value it held
            let r = resolve_value_spec(marked, v, (fuel - 1) as nat);
            assert(v == ValueModel::Constant(s));
            if (fuel - 1) as nat > 0 {
                assert(r.out == StepModel::Done(s));
            }
        } else {
            lemma_constants_stable_value(marked, v, (fuel - 1) as nat, name, s);
        }
    }
}

proof fn lemma_constants_stable_cookies(
    st: EvalState,
    entries: Seq<(Seq<char>, EntryModel)>,
    i: int,
    line: Seq<char>,
    fuel: nat,
    name: Seq<char>,
    s: Seq<char>,
)
    requires
        st.resources.contains_key(name),
        st.resources[name] == (ValueModel::Constant(s), false),
    ensures
        ({
            let r = resolve_cookies_spec(st, entries, i, line, fuel);
            r.st.resources.contains_key(name) && r.st.resources[name] == (
                ValueModel::Constant(s),
                false,
            )
        }),
    decreases fuel, 0int,
{
    if fuel > 0 && 0 <= i < entries.len() {
        match entries[i].1 {
            EntryModel::Deleted => {
                lemma_constants_stable_cookies(st, entries, i + 1, line, (fuel - 1) as nat, name, s);
            },
            EntryModel::Value(v) => {
                let r = resolve_value_spec(st, v, (fuel - 1) as nat);
                lemma_constants_stable_value(st, v, (fuel - 1) as nat, name, s);
                match r.out {
                    StepModel::Done(rv) => {
                        lemma_constants_stable_cookies(
                            r.st,
                            entries,
                            i + 1,
                            cookie_extended(line, encode_utf8(entries[i].0), encode_utf8(rv)),
                            (fuel - 1) as nat,
                            name,
                            s,
                        );
                    },
                    _ => {},
                }
            },
        }
    }
}

proof fn lemma_constants_stable_headers(
    st: EvalState,
    entries: Seq<(Seq<char>, EntryModel)>,
    i: int,
    acc: Seq<(Seq<char>, Seq<char>)>,
    fuel: nat,
    name: Seq<char>,
    s: Seq<char>,
)
    requires
        st.resources.contains_key(name),
        st.resources[name] == (ValueModel::Constant(s), false),
    ensures
        ({
            let r = resolve_headers_spec(st, entries, i, acc, fuel);
            r.st.resources.contains_key(name) && r.st.resources[name] == (
                ValueModel::Constant(s),
                false,
            )
        }),
    decreases fuel, 0int,
{
    if fuel > 0 && 0 <= i < entries.len() {
        match entries[i].1 {
            EntryModel::Deleted => {
                lemma_constants_stable_headers(st, entries, i + 1, acc, (fuel - 1) as nat, name, s);
            },
            EntryModel::Value(v) => {
                let r = resolve_value_spec(st, v, (fuel - 1) as nat);
                lemma_constants_stable_value(st, v, (fuel - 1) as nat, name, s);
                match r.out {
                    StepModel::Done(rv) => {
                        if valid_header_value(encode_utf8(rv)) {
                            lemma_constants_stable_headers(
                                r.st,
                                entries,
                                i + 1,
                                acc.push((lower_ascii(entries[i].0), rv)),
                                (fuel - 1) as nat,
                                name,
                                s,
                            );
                        }
                    },
                    _ => {},
                }
            },
        }
    }
}

proof fn lemma_constants_stable_build(
    st: EvalState,
    r: RequestInfoModel,
    fuel: nat,
    name: Seq<char>,
    s: Seq<char>,
)
    requires
        st.resources.contains_key(name),
        st.resources[name] == (ValueModel::Constant(s), false),
    ensures
        ({
            let res = build_request_spec(st, r, fuel);
            res.st.resources.contains_key(name) && res.st.resources[name] == (
                ValueModel::Constant(s),
                false,
            )
        }),
    decreases fuel, 1int,
{
    if fuel > 0 {
        let rc = resolve_cookies_spec(st, r.cookies, 0, Seq::empty(), (fuel - 1) as nat);
        lemma_constants_stable_cookies(st, r.cookies, 0, Seq::empty(), (fuel - 1) as nat, name, s);
        match rc.out {
            StepModel::Done(line) => {
                let rh = resolve_headers_spec(
                    rc.st,
                    r.headers,
                    0,
                    seq![(cookie_header_name(), line)],
                    (fuel - 1) as nat,
                );
                lemma_constants_stable_headers(
                    rc.st,
                    r.headers,
                    0,
                    seq![(cookie_header_name(), line)],
                    (fuel - 1) as nat,
                    name,
                    s,
                );
                match rh.out {
                    StepModel::Done(_) => {
                        lemma_constants_stable_value(rh.st, *r.body, (fuel - 1) as nat, name, s);
                    },
                    _ => {},
                }
            },
            _ => {},
        }
    }
}

proof fn lemma_constants_stable_request(
    st: EvalState,
    f: FromResponseBodyModel,
    fuel: nat,
    name: Seq<char>,
    s: Seq<char>,
)
    requires
        st.resources.contains_key(name),
        st.resources[name] == (ValueModel::Constant(s), false),
    ensures
        ({
            let r = resolve_request_spec(st, f, fuel);
            r.st.resources.contains_key(name) && r.st.resources[name] == (
                ValueModel::Constant(s),
                false,
            )
        }),
    decreases fuel, 2int,
{
    if fuel > 0 {
        lemma_constants_stable_build(st, f.request, (fuel - 1) as nat, name, s);
    }
}

/// Deletion suppresses, presence emits: when the header entries resolve,
/// a name every matching entry deletes contributes nothing to the output,
/// while a name some entry carries as a value always appears. Together
/// with the merge precedence over [`crate::config::merge_entries`] this is
/// the override/delete rule end to end: an endpoint's own value wins, its
/// deletion erases the inherited default entirely, and an untouched
/// default reaches every request.
pub proof fn lemma_deleted_and_present_headers(
    st: EvalState,
    entries: Seq<(Seq<char>, EntryModel)>,
    i: int,
    acc: Seq<(Seq<char>, Seq<char>)>,
    fuel: nat,
    k: Seq<char>,
)
    requires
        0 <= i,
    ensures
        resolve_headers_spec(st, entries, i, acc, fuel).out matches StepModel::Done(out) ==> {
            &&& (forall|j: int|
                i <= j < entries.len() && lower_ascii((#[trigger] entries[j]).0) == lower_ascii(k)
                    ==> entries[j].1 is Deleted) && (forall|m: int|
                0 <= m < acc.len() ==> (#[trigger] acc[m]).0 != lower_ascii(k)) ==> forall|m: int|
                0 <= m < out.len() ==> (#[trigger] out[m]).0 != lower_ascii(k)
            &&& (exists|j: int|
                i <= j < entries.len() && lower_ascii((#[trigger] entries[j]).0) == lower_ascii(k)
                    && entries[j].1 is Value) ==> exists|m: int|
                0 <= m < out.len() && (#[trigger] out[m]).0 == lower_ascii(k)
        },
    decreases fuel, 0int,
{
    if fuel > 0 && 0 <= i < entries.len() {
        match entries[i].1 {
            EntryModel::Deleted => {
                lemma_deleted_and_present_headers(st, entries, i + 1, acc, (fuel - 1) as nat, k);
            },
            EntryModel::Value(v) => {
                let r = resolve_value_spec(st, v, (fuel - 1) as nat);
                match r.out {
                    StepModel::Done(s) => {
                        if valid_header_value(encode_utf8(s)) {
                            let acc2 = acc.push((lower_ascii(entries[i].0), s));
                            lemma_deleted_and_present_headers(
                                r.st,
                                entries,
                                i + 1,
                                acc2,
                                (fuel - 1) as nat,
                                k,
                            );
                            lemma_headers_prefix_kept(
                                r.st,
                                entries,
                                i + 1,
                                acc2,
                                (fuel - 1) as nat,
                            );
                            let rr = resolve_headers_spec(
                                r.st,
                                entries,
                                i + 1,
                                acc2,
                                (fuel - 1) as nat,
                            );
                            match rr.out {
                                StepModel::Done(out) => {
                                    if lower_ascii(entries[i].0) == lower_ascii(k) {
                                        assert(out[acc.len() as int] == acc2[acc.len() as int]);
                                    }
                                },
                                _ => {},
                            }
                        }
                    },
                    _ => {},
                }
            },
        }
    }
}

/// What is already accumulated stays in the resolved header list, in place.
proof fn lemma_headers_prefix_kept(
    st: EvalState,
    entries: Seq<(Seq<char>, EntryModel)>,
    i: int,
    acc: Seq<(Seq<char>, Seq<char>)>,
    fuel: nat,
)
    ensures
        resolve_headers_spec(st, entries, i, acc, fuel).out matches StepModel::Done(out) ==> {
            &&& out.len() >= acc.len()
            &&& forall|m: int| 0 <= m < acc.len() ==> #[trigger] out[m] == acc[m]
        },
    decreases fuel, 0int,
{
    if fuel > 0 && 0 <= i < entries.len() {
        match entries[i].1 {
            EntryModel::Deleted => {
                lemma_headers_prefix_kept(st, entries, i + 1, acc, (fuel - 1) as nat);
            },
            EntryModel::Value(v) => {
                let r = resolve_value_spec(st, v, (fuel - 1) as nat);
                match r.out {
                    StepModel::Done(s) => {
                        if valid_header_value(encode_utf8(s)) {
                            lemma_headers_prefix_kept(
                                r.st,
                                entries,
                                i + 1,
                                acc.push((lower_ascii(entries[i].0), s)),
                                (fuel - 1) as nat,
                            );
                        }
                    },
                    _ => {},
                }
            },
        }
    }
}

// ------------------------------------------------------------------
// The executable resolver.
// ------------------------------------------------------------------
/// How one executable resolution attempt ends.
pub enum Step<T> {
    /// The resolved payload.
    Done(T),
    /// The shell must perform this request and feed its body back in.
    NeedHttp(AlmostRequest),
    /// Resolution failed.
    Failed(EvalError),
}

/// One declared resource: its name, its current expression (overwritten
/// with the resolved constant on success), and its busy mark.
pub struct Resource {
    pub name: String,
    pub value: Value,
    pub busy: bool,
}

/// The per-run resolver: the resource table and the request/response cache.
pub struct Evaluator {
    pub resources: Vec<Resource>,
    pub cache: Vec<(AlmostRequest, String)>,
}

/// The resource table as a map from names.
pub open spec fn resources_map(rs: Seq<Resource>) -> Map<Seq<char>, (ValueModel, bool)>
    decreases rs.len(),
{
    if rs.len() == 0 {
        Map::empty()
    } else {
        resources_map(rs.drop_last()).insert(
            rs.last().name@,
            (value_model(rs.last().value), rs.last().busy),
        )
    }
}

/// The cache as a map from request identities.
pub open spec fn cache_map(cs: Seq<(AlmostRequest, String)>) -> Map<CacheKey, Seq<char>>
    decreases cs.len(),
{
    if cs.len() == 0 {
        Map::empty()
    } else {
        cache_map(cs.drop_last()).insert(cache_key(cs.last().0@), cs.last().1@)
    }
}

/// Model of the step an executable resolution returned.
pub open spec fn step_model(r: Step<String>) -> StepModel<Seq<char>> {
    match r {
        Step::Done(s) => StepModel::Done(s@),
        Step::NeedHttp(req) => StepModel::NeedHttp(cache_key(req@)),
        Step::Failed(e) => StepModel::Failed(err_model(e)),
    }
}

/// Model of a built request step: its payload is the cache identity.
pub open spec fn step_model_req(r: Step<AlmostRequest>) -> StepModel<CacheKey> {
    match r {
        Step::Done(req) => StepModel::Done(cache_key(req@)),
        Step::NeedHttp(req) => StepModel::NeedHttp(cache_key(req@)),
        Step::Failed(e) => StepModel::Failed(err_model(e)),
    }
}

/// Model of a header-list step.
pub open spec fn step_model_headers(r: Step<Vec<(String, String)>>) -> StepModel<
    Seq<(Seq<char>, Seq<char>)>,
> {
    match r {
        Step::Done(v) => StepModel::Done(pairs_model(v@)),
        Step::NeedHttp(req) => StepModel::NeedHttp(cache_key(req@)),
        Step::Failed(e) => StepModel::Failed(err_model(e)),
    }
}

/// Resource names, in their slots, are untouched by resolution.
pub open spec fn same_layout(a: Seq<Resource>, b: Seq<Resource>) -> bool {
    &&& a.len() == b.len()
    &&& forall|i: int| 0 <= i < a.len() ==> #[trigger] a[i].name@ == b[i].name@
}

/// Any request an attempt hands out or keeps is in canonical form.
pub open spec fn step_wf<T>(r: Step<T>) -> bool {
    match r {
        Step::NeedHttp(req) => req.wf(),
        _ => true,
    }
}

impl Evaluator {
    /// The model state.
    pub open spec fn model(&self) -> EvalState {
        EvalState { resources: resources_map(self.resources@), cache: cache_map(self.cache@) }
    }

    /// Well-formed: resource names are unique, cached requests are
    /// canonical, and no two cache entries share an identity.
    pub open spec fn wf(&self) -> bool {
        &&& forall|i: int, j: int|
            0 <= i < j < self.resources@.len() ==> (#[trigger] self.resources@[i]).name@ != (
            #[trigger] self.resources@[j]).name@
        &&& forall|i: int| 0 <= i < self.cache@.len() ==> (#[trigger] self.cache@[i]).0.wf()
        &&& forall|i: int, j: int|
            0 <= i < j < self.cache@.len() ==> cache_key((#[trigger] self.cache@[i]).0@)
                != cache_key((#[trigger] self.cache@[j]).0@)
    }

    /// A fresh evaluator over the declared resources, none busy, with an
    /// empty cache.
    pub fn new(resources: Vec<(String, Value)>) -> (r: Self)
        requires
            forall|i: int, j: int|
                0 <= i < j < resources@.len() ==> (#[trigger] resources@[i]).0@ != (
                #[trigger] resources@[j]).0@,
        ensures
            r.wf(),
            r.model().cache == Map::<CacheKey, Seq<char>>::empty(),
            r.model().resources == resources_map_of_pairs(resources@),
    {
        let mut rest = resources;
        let mut table: Vec<Resource> = Vec::new();
        let ghost orig = rest@;
        while rest.len() > 0
            invariant
                table@.len() + rest@.len() == orig.len(),
                rest@ =~= orig.skip(table@.len() as int),
                forall|i: int|
                    0 <= i < table@.len() ==> #[trigger] table@[i].name@ == orig[i].0@
                        && table@[i].busy == false && value_model(table@[i].value) == value_model(
                        orig[i].1,
                    ),
                forall|i: int, j: int|
                    0 <= i < j < orig.len() ==> (#[trigger] orig[i]).0@ != (#[trigger] orig[j]).0@,
            decreases rest@.len(),
        {
            let (name, value) = rest.remove(0);
            table.push(Resource { name, value, busy: false });
        }
        let ev = Evaluator { resources: table, cache: Vec::new() };
        proof {
            lemma_resources_map_of_pairs(ev.resources@, orig);
        }
        ev
    }
}

/// The resource map a list of declarations denotes.
pub open spec fn resources_map_of_pairs(ps: Seq<(String, Value)>) -> Map<
    Seq<char>,
    (ValueModel, bool),
>
    decreases ps.len(),
{
    if ps.len() == 0 {
        Map::empty()
    } else {
        resources_map_of_pairs(ps.drop_last()).insert(
            ps.last().0@,
            (value_model(ps.last().1), false),
        )
    }
}

/// A table built slot for slot from declarations denotes the same map.
proof fn lemma_resources_map_of_pairs(rs: Seq<Resource>, ps: Seq<(String, Value)>)
    requires
        rs.len() == ps.len(),
        forall|i: int|
            0 <= i < rs.len() ==> #[trigger] rs[i].name@ == ps[i].0@ && rs[i].busy == false
                && value_model(rs[i].value) == value_model(ps[i].1),
    ensures
        resources_map(rs) == resources_map_of_pairs(ps),
    decreases rs.len(),
{
    if rs.len() > 0 {
        lemma_resources_map_of_pairs(rs.drop_last(), ps.drop_last());
    }
}

/// Where a name is found in the table, the map agrees with that slot.
proof fn lemma_resources_map_at(rs: Seq<Resource>, i: int)
    requires
        forall|p: int, q: int|
            0 <= p < q < rs.len() ==> (#[trigger] rs[p]).name@ != (#[trigger] rs[q]).name@,
        0 <= i < rs.len(),
    ensures
        resources_map(rs).contains_key(rs[i].name@),
        resources_map(rs)[rs[i].name@] == (value_model(rs[i].value), rs[i].busy),
    decreases rs.len(),
{
    if i + 1 < rs.len() {
        lemma_resources_map_at(rs.drop_last(), i);
    }
}

/// A name no slot carries is not in the map.
proof fn lemma_resources_map_absent(rs: Seq<Resource>, k: Seq<char>)
    requires
        forall|i: int| 0 <= i < rs.len() ==> (#[trigger] rs[i]).name@ != k,
    ensures
        !resources_map(rs).contains_key(k),
    decreases rs.len(),
{
    if rs.len() > 0 {
        lemma_resources_map_absent(rs.drop_last(), k);
    }
}

/// Rewriting one slot, keeping its name, is one map insertion.
proof fn lemma_resources_map_update(rs: Seq<Resource>, i: int, r2: Resource)
    requires
        forall|p: int, q: int|
            0 <= p < q < rs.len() ==> (#[trigger] rs[p]).name@ != (#[trigger] rs[q]).name@,
        0 <= i < rs.len(),
        r2.name@ == rs[i].name@,
    ensures
        resources_map(rs.update(i, r2)) == resources_map(rs).insert(
            rs[i].name@,
            (value_model(r2.value), r2.busy),
        ),
    decreases rs.len(),
{
    let upd = rs.update(i, r2);
    if i + 1 == rs.len() {
        assert(upd.drop_last() =~= rs.drop_last());
        assert(resources_map(upd) =~= resources_map(rs).insert(
            rs[i].name@,
            (value_model(r2.value), r2.busy),
        ));
    } else {
        assert(upd.drop_last() =~= rs.drop_last().update(i, r2));
        lemma_resources_map_update(rs.drop_last(), i, r2);
        assert(resources_map(upd) =~= resources_map(rs).insert(
            rs[i].name@,
            (value_model(r2.value), r2.busy),
        ));
    }
}

/// Where an entry sits in the cache, the map answers with its body.
proof fn lemma_cache_map_at(cs: Seq<(AlmostRequest, String)>, i: int)
    requires
        forall|p: int, q: int|
            0 <= p < q < cs.len() ==> cache_key((#[trigger] cs[p]).0@) != cache_key(
                (#[trigger] cs[q]).0@,
            ),
        0 <= i < cs.len(),
    ensures
        cache_map(cs).contains_key(cache_key(cs[i].0@)),
        cache_map(cs)[cache_key(cs[i].0@)] == cs[i].1@,
    decreases cs.len(),
{
    if i + 1 < cs.len() {
        lemma_cache_map_at(cs.drop_last(), i);
    }
}

/// An identity no entry carries is not in the cache map.
proof fn lemma_cache_map_absent(cs: Seq<(AlmostRequest, String)>, k: CacheKey)
    requires
        forall|i: int| 0 <= i < cs.len() ==> cache_key((#[trigger] cs[i]).0@) != k,
    ensures
        !cache_map(cs).contains_key(k),
    decreases cs.len(),
{
    if cs.len() > 0 {
        lemma_cache_map_absent(cs.drop_last(), k);
    }
}

impl Evaluator {
    /// The slot a resource name occupies.
    fn find_resource(&self, name: &str) -> (r: Option<usize>)
        requires
            self.wf(),
        ensures
            match r {
                Some(i) => {
                    &&& i < self.resources@.len()
                    &&& self.resources@[i as int].name@ == name@
                    &&& self.model().resources.contains_key(name@)
                    &&& self.model().resources[name@] == (
                        value_model(self.resources@[i as int].value),
                        self.resources@[i as int].busy,
                    )
                },
                None => !self.model().resources.contains_key(name@),
            },
    {
        let mut i: usize = 0;
        while i < self.resources.len()
            invariant
                i <= self.resources@.len(),
                self.wf(),
                forall|j: int| 0 <= j < i ==> (#[trigger] self.resources@[j]).name@ != name@,
            decreases self.resources@.len() - i,
        {
            let res = &self.resources[i];
            if matches!(str_compare(res.name.as_str(), name), Cmp::Eq) {
                proof {
                    lemma_resources_map_at(self.resources@, i as int);
                }
                return Some(i);
            }
            i = i + 1;
        }
        proof {
            lemma_resources_map_absent(self.resources@, name@);
        }
        None
    }

    /// The cached body of a request, if an identical request was already
    /// answered this run.
    fn cache_lookup(&self, req: &AlmostRequest) -> (r: Option<String>)
        requires
            self.wf(),
            req.wf(),
        ensures
            match r {
                Some(s) => self.model().cache.contains_key(cache_key(req@)) && s@
                    == self.model().cache[cache_key(req@)],
                None => !self.model().cache.contains_key(cache_key(req@)),
            },
    {
        let mut i: usize = 0;
        while i < self.cache.len()
            invariant
                i <= self.cache@.len(),
                self.wf(),
                req.wf(),
                forall|j: int| 0 <= j < i ==> (#[trigger] self.cache@[j]).0@ != req@,
            decreases self.cache@.len() - i,
        {
            let entry = &self.cache[i];
            if entry.0.same_as(req) {
                proof {
                    lemma_cache_map_at(self.cache@, i as int);
                }
                return Some(entry.1.clone());
            }
            i = i + 1;
        }
        proof {
            assert forall|j: int| 0 <= j < self.cache@.len() implies cache_key(
                (#[trigger] self.cache@[j]).0@,
            ) != cache_key(req@) by {
                if cache_key(self.cache@[j].0@) == cache_key(req@) {
                    crate::request::lemma_sorted_multiset_unique(
                        self.cache@[j].0@.headers,
                        req@.headers,
                    );
                    assert(self.cache@[j].0@ == req@);
                }
            }
            lemma_cache_map_absent(self.cache@, cache_key(req@));
        }
        None
    }

    /// Feed the body the shell received for a request back into the cache.
    ///
    /// The body must be text: a response that is not valid UTF-8 is a
    /// resolution error and changes nothing. A response for a request that
    /// is already cached changes nothing either, so the first answer for an
    /// identity is the one every reference observes.
    pub fn provide_response(&mut self, req: AlmostRequest, bytes: Vec<u8>) -> (r: Result<
        (),
        EvalError,
    >)
        requires
            old(self).wf(),
            req.wf(),
        ensures
            final(self).wf(),
            same_layout(old(self).resources@, final(self).resources@),
            final(self).model().resources == old(self).model().resources,
            match r {
                Ok(_) => vstd::utf8::valid_utf8(bytes@) && final(self).model().cache == if old(
                    self,
                ).model().cache.contains_key(cache_key(req@)) {
                    old(self).model().cache
                } else {
                    old(self).model().cache.insert(
                        cache_key(req@),
                        vstd::utf8::decode_utf8(bytes@),
                    )
                },
                Err(e) => {
                    &&& e is BodyNotUtf8
                    &&& !vstd::utf8::valid_utf8(bytes@)
                    &&& final(self).model().cache == old(self).model().cache
                },
            },
    {
        let body = match string_from_utf8(bytes) {
            Some(s) => s,
            None => {
                return Err(EvalError::BodyNotUtf8);
            },
        };
        proof {
            vstd::utf8::encode_utf8_decode_utf8(body@);
        }
        if self.cache_lookup(&req).is_none() {
            let ghost old_cache = self.cache@;
            self.cache.push((req, body));
            proof {
                assert(self.cache@.drop_last() =~= old_cache);
                assert(cache_map(self.cache@) =~= cache_map(old_cache).insert(
                    cache_key(self.cache@.last().0@),
                    self.cache@.last().1@,
                ));
                assert forall|i: int, j: int|
                    0 <= i < j < self.cache@.len() implies cache_key(
                    (#[trigger] self.cache@[i]).0@,
                ) != cache_key((#[trigger] self.cache@[j]).0@) by {
                    if j + 1 == self.cache@.len() {
                        lemma_cache_map_at(old_cache, i);
                    }
                }
            }
        }
        Ok(())
    }

    /// Rewrite one resource slot, keeping its name.
    fn set_slot(&mut self, idx: usize, value: Value, busy: bool)
        requires
            old(self).wf(),
            idx < old(self).resources@.len(),
        ensures
            final(self).wf(),
            same_layout(old(self).resources@, final(self).resources@),
            final(self).model().resources == old(self).model().resources.insert(
                old(self).resources@[idx as int].name@,
                (value_model(value), busy),
            ),
            final(self).model().cache == old(self).model().cache,
    {
        let nm = self.resources[idx].name.clone();
        let ghost oldrs = self.resources@;
        self.resources.set(idx, Resource { name: nm, value, busy });
        proof {
            lemma_resources_map_update(oldrs, idx as int, self.resources@[idx as int]);
            assert forall|p: int, q: int|
                0 <= p < q < self.resources@.len() implies (#[trigger] self.resources@[p]).name@
                != (#[trigger] self.resources@[q]).name@ by {
                assert(oldrs[p].name@ != oldrs[q].name@);
            }
        }
    }

    /// Resolve one declarative value to a concrete string, following
    /// [`resolve_value_spec`] exactly.
    pub fn resolve_value(&mut self, v: &Value, fuel: u64) -> (r: Step<String>)
        requires
            old(self).wf(),
        ensures
            final(self).wf(),
            same_layout(old(self).resources@, final(self).resources@),
            step_wf(r),
            ({
                let sr = resolve_value_spec(old(self).model(), value_model(*v), fuel as nat);
                step_model(r) == sr.out && final(self).model() == sr.st
            }),
        decreases fuel, 3int,
    {
        if fuel == 0 {
            return Step::Failed(EvalError::DepthExceeded);
        }
        match v {
            Value::Constant(s) => Step::Done(s.clone()),
            Value::Formatted(s) => match parse_template(s.as_str()) {
                Err(e) => Step::Failed(e),
                Ok(segs) => self.resolve_segments(&segs, 0, String::new(), fuel - 1),
            },
            Value::Request(frb) => self.resolve_request(&**frb, fuel - 1),
        }
    }

    /// Resolve a template's parsed segments, following
    /// [`resolve_segments_spec`] exactly.
    fn resolve_segments(
        &mut self,
        segs: &Vec<TemplateSegment>,
        i: usize,
        acc: String,
        fuel: u64,
    ) -> (r: Step<String>)
        requires
            old(self).wf(),
        ensures
            final(self).wf(),
            same_layout(old(self).resources@, final(self).resources@),
            step_wf(r),
            ({
                let sr = resolve_segments_spec(
                    old(self).model(),
                    segs_model(segs@),
                    i as int,
                    acc@,
                    fuel as nat,
                );
                step_model(r) == sr.out && final(self).model() == sr.st
            }),
        decreases fuel, 0int,
    {
        if fuel == 0 {
            return Step::Failed(EvalError::DepthExceeded);
        }
        if i >= segs.len() {
            return Step::Done(acc);
        }
        proof {
            assert(segs_model(segs@)[i as int] == segs@[i as int]@);
        }
        let seg = &segs[i];
        match seg {
            TemplateSegment::Lit(t) => {
                let mut acc2 = acc;
                acc2.append(t.as_str());
                self.resolve_segments(segs, i + 1, acc2, fuel - 1)
            },
            TemplateSegment::Placeholder(body) => {
                let blen = body.as_str().unicode_len();
                let prefixed = blen >= 10 && matches!(
                    str_compare(body.as_str().substring_char(0, 10), "resources."),
                    Cmp::Eq,
                );
                if !prefixed {
                    return Step::Failed(EvalError::BadPlaceholderPrefix(body.clone()));
                }
                let name = body.as_str().substring_char(10, blen);
                let r = self.resolve_resource(name, fuel - 1);
                match r {
                    Step::Done(val) => {
                        let mut acc2 = acc;
                        acc2.append(val.as_str());
                        self.resolve_segments(segs, i + 1, acc2, fuel - 1)
                    },
                    Step::NeedHttp(req) => Step::NeedHttp(req),
                    Step::Failed(e) => Step::Failed(e),
                }
            },
        }
    }

    /// Resolve a named resource under the busy-mark protocol, following
    /// [`resolve_resource_spec`] exactly: unknown names and busy marks fail,
    /// a success is memoized in the slot, and the mark is cleared on every
    /// way out.
    pub fn resolve_resource(&mut self, name: &str, fuel: u64) -> (r: Step<String>)
        requires
            old(self).wf(),
        ensures
            final(self).wf(),
            same_layout(old(self).resources@, final(self).resources@),
            step_wf(r),
            ({
                let sr = resolve_resource_spec(old(self).model(), name@, fuel as nat);
                step_model(r) == sr.out && final(self).model() == sr.st
            }),
        decreases fuel, 0int,
    {
        if fuel == 0 {
            return Step::Failed(EvalError::DepthExceeded);
        }
        let idx = match self.find_resource(name) {
            None => {
                let mut n = String::new();
                n.append(name);
                return Step::Failed(EvalError::UnknownResource(n));
            },
            Some(i) => i,
        };
        if self.resources[idx].busy {
            return Step::Failed(EvalError::CyclicDependency);
        }
        let v = self.resources[idx].value.clone();
        self.set_slot(idx, Value::Constant(String::new()), true);
        let r = self.resolve_value(&v, fuel - 1);
        match r {
            Step::Done(s) => {
                let memo = s.clone();
                self.set_slot(idx, Value::Constant(memo), false);
                Step::Done(s)
            },
            Step::NeedHttp(req) => {
                self.set_slot(idx, v, false);
                Step::NeedHttp(req)
            },
            Step::Failed(e) => {
                self.set_slot(idx, v, false);
                Step::Failed(e)
            },
        }
    }

    /// Assemble the cookie line over the entry list, following
    /// [`resolve_cookies_spec`] exactly.
    fn resolve_cookies(
        &mut self,
        entries: &Vec<(String, MaybeDeleted)>,
        i: usize,
        line: Cookie,
        fuel: u64,
    ) -> (r: Step<String>)
        requires
            old(self).wf(),
        ensures
            final(self).wf(),
            same_layout(old(self).resources@, final(self).resources@),
            step_wf(r),
            ({
                let sr = resolve_cookies_spec(
                    old(self).model(),
                    entries_model(entries@),
                    i as int,
                    line.0@,
                    fuel as nat,
                );
                step_model(r) == sr.out && final(self).model() == sr.st
            }),
        decreases fuel, 0int,
    {
        proof {
            crate::config::lemma_entries_model_len(entries@);
        }
        if fuel == 0 {
            return Step::Failed(EvalError::DepthExceeded);
        }
        if i >= entries.len() {
            return Step::Done(line.0);
        }
        let entry = &entries[i];
        match &entry.1 {
            MaybeDeleted::Deleted(_) => self.resolve_cookies(entries, i + 1, line, fuel - 1),
            MaybeDeleted::Value(v) => {
                let r = self.resolve_value(v, fuel - 1);
                match r {
                    Step::Done(s) => {
                        let mut line2 = line;
                        line2.add(entry.0.as_str(), s.as_str());
                        self.resolve_cookies(entries, i + 1, line2, fuel - 1)
                    },
                    Step::NeedHttp(req) => Step::NeedHttp(req),
                    Step::Failed(e) => Step::Failed(e),
                }
            },
        }
    }

    /// Resolve the header entries, following [`resolve_headers_spec`]
    /// exactly: deletions are dropped, names are lowered, values must be
    /// wire-valid.
    fn resolve_headers(
        &mut self,
        entries: &Vec<(String, MaybeDeleted)>,
        i: usize,
        acc: Vec<(String, String)>,
        fuel: u64,
    ) -> (r: Step<Vec<(String, String)>>)
        requires
            old(self).wf(),
        ensures
            final(self).wf(),
            same_layout(old(self).resources@, final(self).resources@),
            step_wf(r),
            ({
                let sr = resolve_headers_spec(
                    old(self).model(),
                    entries_model(entries@),
                    i as int,
                    pairs_model(acc@),
                    fuel as nat,
                );
                step_model_headers(r) == sr.out && final(self).model() == sr.st
            }),
        decreases fuel, 0int,
    {
        proof {
            crate::config::lemma_entries_model_len(entries@);
        }
        if fuel == 0 {
            return Step::Failed(EvalError::DepthExceeded);
        }
        if i >= entries.len() {
            return Step::Done(acc);
        }
        let entry = &entries[i];
        match &entry.1 {
            MaybeDeleted::Deleted(_) => self.resolve_headers(entries, i + 1, acc, fuel - 1),
            MaybeDeleted::Value(v) => {
                let r = self.resolve_value(v, fuel - 1);
                match r {
                    Step::Done(s) => {
                        if !check_header_value(s.as_str()) {
                            return Step::Failed(EvalError::InvalidHeaderValue(s));
                        }
                        let lowered = ascii_lowercase(entry.0.as_str());
                        let ghost accm = pairs_model(acc@);
                        let mut acc2 = acc;
                        let ghost pushed = (lowered@, s@);
                        acc2.push((lowered, s));
                        proof {
                            assert(acc2@.drop_last() =~= acc2@.subrange(0, acc2@.len() - 1));
                            assert(pairs_model(acc2@) =~= accm.push(pushed));
                        }
                        self.resolve_headers(entries, i + 1, acc2, fuel - 1)
                    },
                    Step::NeedHttp(req) => Step::NeedHttp(req),
                    Step::Failed(e) => Step::Failed(e),
                }
            },
        }
    }

    /// Build a request template into a canonical concrete request,
    /// following [`build_request_spec`] exactly: the step's identity is the
    /// built request's cache key.
    fn build_request(&mut self, r: &RequestInfo, fuel: u64) -> (res: Step<AlmostRequest>)
        requires
            old(self).wf(),
        ensures
            final(self).wf(),
            same_layout(old(self).resources@, final(self).resources@),
            step_wf(res),
            res matches Step::Done(req) ==> req.wf(),
            ({
                let sr = build_request_spec(old(self).model(), request_model(*r), fuel as nat);
                step_model_req(res) == sr.out && final(self).model() == sr.st
            }),
        decreases fuel, 1int,
    {
        if fuel == 0 {
            return Step::Failed(EvalError::DepthExceeded);
        }
        let rc = self.resolve_cookies(&r.cookies, 0, Cookie::new(), fuel - 1);
        let line = match rc {
            Step::Done(line) => line,
            Step::NeedHttp(req) => {
                return Step::NeedHttp(req);
            },
            Step::Failed(e) => {
                return Step::Failed(e);
            },
        };
        let mut acc: Vec<(String, String)> = Vec::new();
        let cookie_name = String::from_str("cookie");
        acc.push((cookie_name, line));
        proof {
            assert(pairs_model(acc@) =~= seq![(cookie_header_name(), acc@[0].1@)]);
        }
        let rh = self.resolve_headers(&r.headers, 0, acc, fuel - 1);
        let hdrs = match rh {
            Step::Done(hdrs) => hdrs,
            Step::NeedHttp(req) => {
                return Step::NeedHttp(req);
            },
            Step::Failed(e) => {
                return Step::Failed(e);
            },
        };
        let rb = self.resolve_value(&*r.body, fuel - 1);
        let body = match rb {
            Step::Done(body) => body,
            Step::NeedHttp(req) => {
                return Step::NeedHttp(req);
            },
            Step::Failed(e) => {
                return Step::Failed(e);
            },
        };
        let req = AlmostRequest::assemble(r.uri.clone(), r.method.clone(), hdrs, body);
        Step::Done(req)
    }

    /// Resolve a derived value, following [`resolve_request_spec`] exactly:
    /// build the nested request, answer from the cache or stop for the
    /// shell, then extract and format.
    fn resolve_request(&mut self, f: &FromResponseBody, fuel: u64) -> (r: Step<String>)
        requires
            old(self).wf(),
        ensures
            final(self).wf(),
            same_layout(old(self).resources@, final(self).resources@),
            step_wf(r),
            ({
                let sr = resolve_request_spec(old(self).model(), frb_model(*f), fuel as nat);
                step_model(r) == sr.out && final(self).model() == sr.st
            }),
        decreases fuel, 2int,
    {
        if fuel == 0 {
            return Step::Failed(EvalError::DepthExceeded);
        }
        let rb = self.build_request(&f.request, fuel - 1);
        let req = match rb {
            Step::Done(req) => req,
            Step::NeedHttp(req) => {
                return Step::NeedHttp(req);
            },
            Step::Failed(e) => {
                return Step::Failed(e);
            },
        };
        let body = match self.cache_lookup(&req) {
            Some(body) => body,
            None => {
                return Step::NeedHttp(req);
            },
        };
        let extracted = match &f.extract {
            None => body,
            Some(BodyExtract::Json { pointer }) => match extract_json_pointer(
                body.as_str(),
                pointer.as_str(),
            ) {
                JsonExtract::NotJson => {
                    return Step::Failed(EvalError::BodyNotJson);
                },
                JsonExtract::Missing => {
                    return Step::Failed(EvalError::PointerMissing);
                },
                JsonExtract::Found(s) => s,
            },
        };
        match &f.format {
            None => Step::Done(extracted),
            Some(fstr) => match format_one(fstr.clone(), extracted.as_str()) {
                Ok(out) => Step::Done(out),
                Err(_) => Step::Failed(EvalError::BadFormatString),
            },
        }
    }
}

impl Value {
    /// Resolve this value to a concrete string against the evaluator.
    pub fn evaluate(&self, evaluator: &mut Evaluator, fuel: u64) -> (r: Step<String>)
        requires
            old(evaluator).wf(),
        ensures
            final(evaluator).wf(),
            same_layout(old(evaluator).resources@, final(evaluator).resources@),
            step_wf(r),
            ({
                let sr = resolve_value_spec(old(evaluator).model(), value_model(*self), fuel as nat);
                step_model(r) == sr.out && final(evaluator).model() == sr.st
            }),
    {
        evaluator.resolve_value(self, fuel)
    }
}

impl FromResponseBody {
    /// Resolve this derived value against the evaluator.
    pub fn resolve(&self, evaluator: &mut Evaluator, fuel: u64) -> (r: Step<String>)
        requires
            old(evaluator).wf(),
        ensures
            final(evaluator).wf(),
            same_layout(old(evaluator).resources@, final(evaluator).resources@),
            step_wf(r),
            ({
                let sr = resolve_request_spec(old(evaluator).model(), frb_model(*self), fuel as nat);
                step_model(r) == sr.out && final(evaluator).model() == sr.st
            }),
    {
        evaluator.resolve_request(self, fuel)
    }
}

impl RequestInfo {
    /// Build this template into a canonical concrete request against the
    /// evaluator.
    pub fn build(&self, evaluator: &mut Evaluator, fuel: u64) -> (r: Step<AlmostRequest>)
        requires
            old(evaluator).wf(),
        ensures
            final(evaluator).wf(),
            same_layout(old(evaluator).resources@, final(evaluator).resources@),
            step_wf(r),
            r matches Step::Done(req) ==> req.wf(),
            ({
                let sr = build_request_spec(old(evaluator).model(), request_model(*self), fuel as nat);
                step_model_req(r) == sr.out && final(evaluator).model() == sr.st
            }),
    {
        evaluator.build_request(self, fuel)
    }
}

} // verus!
