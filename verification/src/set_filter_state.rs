//! The `set_filter_state` HTTP filter: it evaluates format strings against
//! the request and stores the results as filter state entries of the
//! request, for routing decisions and upstream propagation. It never stops
//! the request.

use vstd::prelude::*;
use vstd::string::StringSliceAdditionalSpecFns;
use vstd::utf8::decode_utf8;
use crate::ag_ext_proc::is_visible_ascii;
use crate::filter_state::{EntryView, FilterState, SharedWithUpstream};
use crate::format_string::{header_lookup, spec_evaluate, FormatStringEvaluator, RequestContext, RequestContextView};
use crate::headers::{pairs_of, pair_view};
use crate::http_parts::{RequestHead, UriPartsView};
use crate::text::{lowercase, utf8_to_string};
use crate::filter_decision::FilterDecision;

verus! {

broadcast use vstd::string::group_string_axioms;

/// How a filter state value is computed.
#[derive(Debug, Clone)]
pub enum FormatString {
    /// A format string of text and command operators.
    Text(String),
    /// A structured format (not supported: the value is skipped).
    Structured,
}

/// One filter state entry to set.
#[derive(Debug, Clone)]
pub struct FilterStateValue {
    pub object_key: String,
    pub format_string: FormatString,
    pub read_only: bool,
    pub shared_with_upstream: SharedWithUpstream,
    pub skip_if_empty: bool,
}

/// The configuration of the filter: the entries to set when the request
/// headers arrive, in order.
#[derive(Debug, Clone)]
pub struct SetFilterState {
    pub on_request_headers: Vec<FilterStateValue>,
}

/// The path of a URI, without its query: `/` when it is empty, and nothing
/// for a URI without path.
pub open spec fn uri_path(uri: UriPartsView) -> Seq<char> {
    match uri.path_and_query {
        Some(p) => {
            let q = crate::original_dst::first_index_from(p, '?', 0);
            let path = if q < 0 {
                p
            } else {
                p.subrange(0, q)
            };
            if path.len() == 0 {
                "/"@
            } else {
                path
            }
        },
        None => if uri.scheme is Some {
            "/"@
        } else {
            Seq::empty()
        },
    }
}

/// The headers that the format strings see: each header value that is
/// visible ASCII, under the lowercased name, a later value replacing an
/// earlier one.
pub open spec fn visible_headers(pairs: Seq<(Seq<char>, Seq<u8>)>) -> Map<Seq<char>, Seq<char>>
    decreases pairs.len(),
{
    if pairs.len() == 0 {
        Map::empty()
    } else {
        let m = visible_headers(pairs.drop_last());
        let (n, v) = pairs.last();
        if is_visible_ascii(v) {
            m.insert(lowercase(n), decode_utf8(v))
        } else {
            m
        }
    }
}

/// The context that the format strings of a request are evaluated in: its
/// visible headers, `:authority` taken from `host` when missing, `:method`,
/// its method, path and protocol, and the addresses of its connection.
pub open spec fn request_context(
    pairs: Seq<(Seq<char>, Seq<u8>)>,
    method: Seq<char>,
    path: Seq<char>,
    protocol: Seq<char>,
    remote: Seq<char>,
    local: Seq<char>,
) -> RequestContextView {
    let h0 = visible_headers(pairs);
    let h1 = if header_lookup(h0, lowercase(":authority"@)) is None {
        match header_lookup(h0, lowercase("host"@)) {
            Some(host) => h0.insert(lowercase(":authority"@), host),
            None => h0,
        }
    } else {
        h0
    };
    RequestContextView {
        headers: h1.insert(lowercase(":method"@), method),
        downstream_remote_address: Some(remote),
        downstream_local_address: Some(local),
        upstream_host: None,
        protocol: Some(protocol),
        method: Some(method),
        path: Some(path),
        route_name: None,
    }
}

/// The filter state after the entries from position `i` on: a structured
/// format is skipped; an empty (or `-`) value is skipped when the entry
/// asks so; else the filter state is created if needed and the entry is
/// set, unless the key holds a read-only entry.
pub open spec fn state_after(
    fs: Option<Map<Seq<char>, EntryView>>,
    values: Seq<FilterStateValue>,
    ctx: RequestContextView,
    i: int,
) -> Option<Map<Seq<char>, EntryView>>
    decreases values.len() - i,
{
    if i < 0 || i >= values.len() {
        fs
    } else {
        let v = values[i];
        match v.format_string {
            FormatString::Structured => state_after(fs, values, ctx, i + 1),
            FormatString::Text(t) => {
                let value = spec_evaluate(spec_bytes_of(t@), ctx);
                if v.skip_if_empty && (value.len() == 0 || value == seq!['-']) {
                    state_after(fs, values, ctx, i + 1)
                } else {
                    let m = match fs {
                        Some(m) => m,
                        None => Map::empty(),
                    };
                    let m2 = if m.contains_key(v.object_key@) && m[v.object_key@].read_only {
                        m
                    } else {
                        m.insert(
                            v.object_key@,
                            EntryView { value, read_only: v.read_only, shared_with_upstream: v.shared_with_upstream },
                        )
                    };
                    state_after(Some(m2), values, ctx, i + 1)
                }
            },
        }
    }
}

/// The bytes of a text, as `str::as_bytes` gives them.
pub open spec fn spec_bytes_of(t: Seq<char>) -> Seq<u8> {
    vstd::utf8::encode_utf8(t)
}

pub open spec fn opt_state_view(o: Option<FilterState>) -> Option<Map<Seq<char>, EntryView>> {
    match o {
        Some(f) => Some(f@),
        None => None,
    }
}

fn uri_path_of(req: &RequestHead) -> (r: String)
    ensures
        r@ == uri_path(req@.uri),
{
    proof {
        reveal_strlit("/");
    }
    match &req.path_and_query {
        Some(p) => {
            let c = crate::text::chars_of(p.as_str());
            let mut out = String::new();
            let mut k: usize = 0;
            while k < c.len() && c[k] != '?'
                invariant
                    k <= c@.len(),
                    c@ == p@,
                    crate::original_dst::first_index_from(c@, '?', 0) == crate::original_dst::first_index_from(c@, '?', k as int),
                    out@ == c@.subrange(0, k as int),
                decreases c@.len() - k,
            {
                crate::text::push_char(&mut out, c[k]);
                assert(c@.subrange(0, k + 1) =~= c@.subrange(0, k as int).push(c@[k as int]));
                k += 1;
            }
            if k == c.len() {
                assert(c@.subrange(0, k as int) =~= c@);
            }
            if k == 0 {
                "/".to_owned()
            } else {
                out
            }
        },
        None => if req.scheme.is_some() {
            "/".to_owned()
        } else {
            String::new()
        },
    }
}

/// Applies the filter to a request: builds the context of its format
/// strings and sets the configured entries in the request's filter state
/// (`filter_state`, created when first needed). Returns `Continue`.
pub fn apply_set_filter_state(
    config: &SetFilterState,
    request: &RequestHead,
    protocol: &str,
    remote_address: &str,
    local_address: &str,
    filter_state: &mut Option<FilterState>,
    format_evaluator: &FormatStringEvaluator,
) -> (r: FilterDecision)
    ensures
        r is Continue,
        opt_state_view(*final(filter_state)) == state_after(
            opt_state_view(*old(filter_state)),
            config.on_request_headers@,
            request_context(
                pairs_of(request.headers.names(), request.headers@),
                request.method@,
                uri_path(request@.uri),
                protocol@,
                remote_address@,
                local_address@,
            ),
            0,
        ),
{
    let pairs = request.headers.pairs();
    let ghost pv = pairs@.map_values(|p: (String, Vec<u8>)| pair_view(p));
    let mut ctx = RequestContext::new();
    let mut i: usize = 0;
    while i < pairs.len()
        invariant
            i <= pairs@.len(),
            pv == pairs@.map_values(|p: (String, Vec<u8>)| pair_view(p)),
            ctx@ == (RequestContextView { headers: visible_headers(pv.subrange(0, i as int)), ..RequestContextView {
                headers: Map::empty(),
                downstream_remote_address: None,
                downstream_local_address: None,
                upstream_host: None,
                protocol: None,
                method: None,
                path: None,
                route_name: None,
            } }),
        decreases pairs@.len() - i,
    {
        let ghost sub = pv.subrange(0, i + 1);
        assert(sub.drop_last() =~= pv.subrange(0, i as int));
        assert(sub.last() == pv[i as int]);
        let (name, value) = (&pairs[i].0, &pairs[i].1);
        if crate::ag_ext_proc::visible_ascii_bytes(value.as_slice()) {
            proof {
                crate::ag_ext_proc::lemma_visible_ascii_utf8(value@);
            }
            match utf8_to_string(value.clone()) {
                Some(text) => {
                    ctx = ctx.with_header(name.as_str(), text.as_str());
                },
                None => {},
            }
        }
        i += 1;
    }
    assert(pv.subrange(0, i as int) =~= pv);
    proof {
        reveal_strlit(":authority");
        reveal_strlit("host");
        reveal_strlit(":method");
    }
    let has_authority = ctx.get_header(":authority").is_some();
    if !has_authority {
        let host = match ctx.get_header("host") {
            Some(h) => Some(h.clone()),
            None => None,
        };
        match host {
            Some(h) => {
                ctx = ctx.with_header(":authority", h.as_str());
            },
            None => {},
        }
    }
    ctx = ctx.with_method(request.method.as_str());
    ctx = ctx.with_header(":method", request.method.as_str());
    let path = uri_path_of(request);
    ctx = ctx.with_path(path.as_str());
    ctx = ctx.with_protocol(protocol);
    ctx = ctx.with_downstream_remote_address(remote_address);
    ctx = ctx.with_downstream_local_address(local_address);
    let ghost cv = ctx@;
    assert(cv == request_context(
        pairs_of(request.headers.names(), request.headers@),
        request.method@,
        uri_path(request@.uri),
        protocol@,
        remote_address@,
        local_address@,
    ));
    let values = &config.on_request_headers;
    let ghost s0 = opt_state_view(*filter_state);
    let mut j: usize = 0;
    while j < values.len()
        invariant
            j <= values@.len(),
            cv == ctx@,
            state_after(opt_state_view(*filter_state), values@, cv, j as int) == state_after(s0, values@, cv, 0),
        decreases values@.len() - j,
    {
        let v = &values[j];
        match &v.format_string {
            FormatString::Structured => {},
            FormatString::Text(template) => {
                let evaluated = format_evaluator.evaluate(template.as_str(), &ctx);
                let dash = "-".to_owned();
                proof {
                    reveal_strlit("-");
                }
                let empty = String::new();
                let skip = v.skip_if_empty && (evaluated == empty || evaluated == dash);
                proof {
                    if evaluated@.len() == 0 {
                        assert(evaluated@ =~= empty@);
                    }
                    assert(dash@ =~= seq!['-']);
                    assert(evaluated@ == spec_evaluate(spec_bytes_of(template@), cv));
                    assert(skip == (v.skip_if_empty && (evaluated@.len() == 0 || evaluated@ == seq!['-'])));
                }
                let ghost before = opt_state_view(*filter_state);
                if !skip {
                    if filter_state.is_none() {
                        *filter_state = Some(FilterState::new());
                    }
                    let ghost m = match before {
                        Some(m) => m,
                        None => Map::<Seq<char>, EntryView>::empty(),
                    };
                    assert(opt_state_view(*filter_state) == Some(m));
                    match filter_state {
                        Some(fs) => {
                            let _ = fs.set(v.object_key.as_str(), evaluated.as_str(), v.read_only, v.shared_with_upstream);
                        },
                        None => {},
                    }
                }
            },
        }
        j += 1;
    }
    FilterDecision::Continue
}

} // verus!
