//! Header mutations requested by an external processor: removals and
//! additions of headers, and changes of the pseudo-headers (`:method`,
//! `:scheme`, `:authority`, `:path`, `:status`).

use vstd::prelude::*;
use vstd::string::StringSliceAdditionalSpecFns;
use vstd::utf8::{decode_utf8, encode_utf8, valid_utf8};
use crate::headers::{header_name_from_bytes, is_header_value, parse_header_name, valid_header_value, HeaderMap};
use crate::http_parts::{
    authority_from_bytes, is_status_code, method_from_bytes, parse_authority, parse_method, parse_path_and_query,
    parse_scheme, path_and_query_from_bytes, scheme_from_bytes, uri_parts_valid, valid_status_code, RequestHead,
    ResponseHead, UriPartsView,
};
use crate::text::utf8_to_string;
use crate::format_string::opt_chars;

verus! {

broadcast use vstd::string::group_string_axioms;

/// How a header value is added.
#[derive(Debug, Clone, Copy, PartialEq, Eq, Structural)]
pub enum HeaderAppendAction {
    /// Append to the existing values, or add the header.
    AppendIfExistsOrAdd,
    /// Add the header only if it is absent.
    AddIfAbsent,
    /// Replace the existing values, or add the header.
    OverwriteIfExistsOrAdd,
    /// Replace the existing values; do nothing if the header is absent.
    OverwriteIfExists,
}

/// A header to set: its name, its value as text and as raw bytes (the raw
/// bytes are used when not empty).
#[derive(Debug, Clone)]
pub struct HeaderValue {
    pub key: String,
    pub value: String,
    pub raw_value: Vec<u8>,
}

/// A header to set, with how it is added.
#[derive(Debug, Clone)]
pub struct HeaderValueOption {
    pub header: Option<HeaderValue>,
    pub append_action: HeaderAppendAction,
}

/// The headers to set and to remove.
#[derive(Debug, Clone)]
pub struct HeaderMutation {
    pub set_headers: Vec<HeaderValueOption>,
    pub remove_headers: Vec<String>,
}

/// What the configured mutation rules decide for a mutation: whether each
/// removal and each header to set is permitted (position by position), and
/// whether a refused change is an error.
#[derive(Debug, Clone)]
pub struct MutationVerdicts {
    pub disallow_is_error: bool,
    pub removals_permitted: Vec<bool>,
    pub sets_permitted: Vec<bool>,
}

/// A change that the rules refuse, when refusals are errors.
#[derive(Debug, Clone, PartialEq)]
pub enum HeaderMutationError {
    /// Removing this header is not permitted.
    RemovalNotPermitted(String),
    /// Setting this header is not permitted.
    ModificationNotPermitted(String),
}

/// A refused change, by the header's name.
pub enum MutationFailure {
    Removal(Seq<char>),
    Modification(Seq<char>),
}

/// The verdicts fit the mutation.
pub open spec fn verdicts_fit(m: HeaderMutation, rules: Option<MutationVerdicts>) -> bool {
    rules matches Some(r) ==> r.removals_permitted@.len() == m.remove_headers@.len()
        && r.sets_permitted@.len() == m.set_headers@.len()
}

/// The verdicts behind an optional reference.
pub open spec fn rules_of(o: Option<&MutationVerdicts>) -> Option<MutationVerdicts> {
    match o {
        Some(r) => Some(*r),
        None => None,
    }
}

/// Whether removal number `i` is permitted.
pub open spec fn removal_permitted(rules: Option<MutationVerdicts>, i: int) -> bool {
    match rules {
        Some(r) => r.removals_permitted@[i],
        None => true,
    }
}

/// Whether setting header number `i` is permitted.
pub open spec fn set_permitted(rules: Option<MutationVerdicts>, i: int) -> bool {
    match rules {
        Some(r) => r.sets_permitted@[i],
        None => true,
    }
}

/// Whether a refused change is an error.
pub open spec fn refusal_is_error(rules: Option<MutationVerdicts>) -> bool {
    rules matches Some(r) && r.disallow_is_error
}

/// The headers after the removals from position `i` on, and the refusal
/// that stopped them, if any.
pub open spec fn removals_from(
    h: Map<Seq<char>, Seq<Seq<u8>>>,
    m: HeaderMutation,
    rules: Option<MutationVerdicts>,
    i: int,
) -> (Map<Seq<char>, Seq<Seq<u8>>>, Option<MutationFailure>)
    decreases m.remove_headers@.len() - i,
{
    if i < 0 || i >= m.remove_headers@.len() {
        (h, None)
    } else {
        let name = m.remove_headers@[i]@;
        if !removal_permitted(rules, i) {
            if refusal_is_error(rules) {
                (h, Some(MutationFailure::Removal(name)))
            } else {
                removals_from(h, m, rules, i + 1)
            }
        } else {
            let h2 = match header_name_from_bytes(encode_utf8(name)) {
                Some(n) => h.remove(n),
                None => h,
            };
            removals_from(h2, m, rules, i + 1)
        }
    }
}

/// The bytes of a header value to set: the raw bytes, or else the text's bytes.
pub open spec fn value_bytes(hv: HeaderValue) -> Seq<u8> {
    if hv.raw_value@.len() == 0 {
        encode_utf8(hv.value@)
    } else {
        hv.raw_value@
    }
}

/// The headers after adding `v` under `n` as `action` says.
pub open spec fn add_value(
    h: Map<Seq<char>, Seq<Seq<u8>>>,
    n: Seq<char>,
    v: Seq<u8>,
    action: HeaderAppendAction,
) -> Map<Seq<char>, Seq<Seq<u8>>> {
    let appended = h.insert(
        n,
        if h.contains_key(n) {
            h[n].push(v)
        } else {
            seq![v]
        },
    );
    match action {
        HeaderAppendAction::AppendIfExistsOrAdd => appended,
        HeaderAppendAction::AddIfAbsent => if h.contains_key(n) {
            h
        } else {
            appended
        },
        HeaderAppendAction::OverwriteIfExistsOrAdd => h.insert(n, seq![v]),
        HeaderAppendAction::OverwriteIfExists => if h.contains_key(n) {
            h.insert(n, seq![v])
        } else {
            h
        },
    }
}

/// The headers after setting one header: nothing changes when its name or
/// its value is not valid.
pub open spec fn set_one(
    h: Map<Seq<char>, Seq<Seq<u8>>>,
    hv: HeaderValue,
    action: HeaderAppendAction,
) -> Map<Seq<char>, Seq<Seq<u8>>> {
    match header_name_from_bytes(encode_utf8(hv.key@)) {
        None => h,
        Some(n) => if is_header_value(value_bytes(hv)) {
            add_value(h, n, value_bytes(hv), action)
        } else {
            h
        },
    }
}

/// The headers after the headers to set from position `i` on, and the
/// refusal that stopped them, if any.
pub open spec fn sets_from(
    h: Map<Seq<char>, Seq<Seq<u8>>>,
    m: HeaderMutation,
    rules: Option<MutationVerdicts>,
    i: int,
) -> (Map<Seq<char>, Seq<Seq<u8>>>, Option<MutationFailure>)
    decreases m.set_headers@.len() - i,
{
    if i < 0 || i >= m.set_headers@.len() {
        (h, None)
    } else {
        let o = m.set_headers@[i];
        match o.header {
            None => sets_from(h, m, rules, i + 1),
            Some(hv) => if !set_permitted(rules, i) {
                if refusal_is_error(rules) {
                    (h, Some(MutationFailure::Modification(hv.key@)))
                } else {
                    sets_from(h, m, rules, i + 1)
                }
            } else {
                sets_from(set_one(h, hv, o.append_action), m, rules, i + 1)
            },
        }
    }
}

/// Every header in `after` that was not in `before` has a name without `:`:
/// no pseudo-header is ever added as a header.
pub open spec fn adds_no_pseudo_header(before: Map<Seq<char>, Seq<Seq<u8>>>, after: Map<Seq<char>, Seq<Seq<u8>>>) -> bool {
    forall|k: Seq<char>| #[trigger] after.contains_key(k) && !before.contains_key(k) ==> !k.contains(':')
}

/// The headers after a whole mutation, and the refusal that stopped it, if
/// any: first the removals, then (if none was refused) the headers to set.
pub open spec fn mutate_headers(
    h: Map<Seq<char>, Seq<Seq<u8>>>,
    m: HeaderMutation,
    rules: Option<MutationVerdicts>,
) -> (Map<Seq<char>, Seq<Seq<u8>>>, Option<MutationFailure>) {
    let (h1, f1) = removals_from(h, m, rules, 0);
    if f1 is Some {
        (h1, f1)
    } else {
        sets_from(h1, m, rules, 0)
    }
}

/// The error that reports a refusal.
pub open spec fn failure_matches(e: HeaderMutationError, f: MutationFailure) -> bool {
    match (e, f) {
        (HeaderMutationError::RemovalNotPermitted(n), MutationFailure::Removal(g)) => n@ == g,
        (HeaderMutationError::ModificationNotPermitted(n), MutationFailure::Modification(g)) => n@ == g,
        _ => false,
    }
}

/// The result reports the outcome of a mutation.
pub open spec fn result_matches(r: Result<(), HeaderMutationError>, f: Option<MutationFailure>) -> bool {
    match f {
        None => r is Ok,
        Some(ff) => r matches Err(e) && failure_matches(e, ff),
    }
}

/// Applies a header mutation: removes the headers to remove, then sets the
/// headers to set, each as its append action says. A change that the rules
/// refuse is skipped, or, when refusals are errors, stops the mutation with
/// an error (the changes made before it stay).
pub fn apply_header_mutations(headers: &mut HeaderMap, mutation: &HeaderMutation, mutation_rules: Option<
    &MutationVerdicts,
>) -> (r: Result<(), HeaderMutationError>)
    requires
        verdicts_fit(*mutation, rules_of(mutation_rules)),
    ensures
        final(headers)@ == mutate_headers(old(headers)@, *mutation, rules_of(mutation_rules)).0,
        result_matches(r, mutate_headers(old(headers)@, *mutation, rules_of(mutation_rules)).1),
        adds_no_pseudo_header(old(headers)@, final(headers)@),
{
    let ghost rules = rules_of(mutation_rules);
    let ghost h0 = headers@;
    let mut i: usize = 0;
    while i < mutation.remove_headers.len()
        invariant
            i <= mutation.remove_headers@.len(),
            rules == rules_of(mutation_rules),
            verdicts_fit(*mutation, rules),
            removals_from(headers@, *mutation, rules, i as int) == removals_from(h0, *mutation, rules, 0),
            h0 == old(headers)@,
            adds_no_pseudo_header(h0, headers@),
        decreases mutation.remove_headers@.len() - i,
    {
        let name = &mutation.remove_headers[i];
        let permitted = match mutation_rules {
            Some(r) => r.removals_permitted[i],
            None => true,
        };
        if !permitted {
            let is_error = match mutation_rules {
                Some(r) => r.disallow_is_error,
                None => false,
            };
            if is_error {
                assert(removals_from(headers@, *mutation, rules, i as int) == (
                    headers@,
                    Some(MutationFailure::Removal(name@)),
                ));
                return Err(HeaderMutationError::RemovalNotPermitted(name.clone()));
            }
        } else {
            match parse_header_name(name.as_str().as_bytes()) {
                Some(n) => headers.remove(n.as_str()),
                None => {},
            }
        }
        i += 1;
    }
    let ghost h1 = headers@;
    assert(removals_from(h0, *mutation, rules, 0) == (h1, None::<MutationFailure>));
    let mut i: usize = 0;
    while i < mutation.set_headers.len()
        invariant
            i <= mutation.set_headers@.len(),
            rules == rules_of(mutation_rules),
            verdicts_fit(*mutation, rules),
            sets_from(headers@, *mutation, rules, i as int) == sets_from(h1, *mutation, rules, 0),
            h0 == old(headers)@,
            removals_from(h0, *mutation, rules, 0) == (h1, None::<MutationFailure>),
            adds_no_pseudo_header(h0, headers@),
        decreases mutation.set_headers@.len() - i,
    {
        let o = &mutation.set_headers[i];
        match &o.header {
            None => {},
            Some(hv) => {
                let permitted = match mutation_rules {
                    Some(r) => r.sets_permitted[i],
                    None => true,
                };
                if !permitted {
                    let is_error = match mutation_rules {
                        Some(r) => r.disallow_is_error,
                        None => false,
                    };
                    if is_error {
                        assert(sets_from(headers@, *mutation, rules, i as int) == (
                            headers@,
                            Some(MutationFailure::Modification(hv.key@)),
                        ));
                        return Err(HeaderMutationError::ModificationNotPermitted(hv.key.clone()));
                    }
                } else {
                    let ghost mid = headers@;
                    set_header(headers, hv, o.append_action);
                    assert(adds_no_pseudo_header(h0, headers@)) by {
                        assert forall|k: Seq<char>| #[trigger] headers@.contains_key(k) && !h0.contains_key(k) implies !k.contains(':') by {
                            if !mid.contains_key(k) {
                                assert(adds_no_pseudo_header(mid, headers@));
                            }
                        }
                    }
                }
            },
        }
        i += 1;
    }
    Ok(())
}

/// Sets one header as `set_one` says.
fn set_header(headers: &mut HeaderMap, hv: &HeaderValue, action: HeaderAppendAction)
    ensures
        final(headers)@ == set_one(old(headers)@, *hv, action),
        adds_no_pseudo_header(old(headers)@, final(headers)@),
{
    let name = match parse_header_name(hv.key.as_str().as_bytes()) {
        Some(n) => n,
        None => {
            return ;
        },
    };
    let value: Vec<u8> = if hv.raw_value.len() == 0 {
        vstd::slice::slice_to_vec(hv.value.as_str().as_bytes())
    } else {
        vstd::slice::slice_to_vec(hv.raw_value.as_slice())
    };
    assert(value@ == value_bytes(*hv));
    if !valid_header_value(value.as_slice()) {
        return ;
    }
    match action {
        HeaderAppendAction::AppendIfExistsOrAdd => {
            headers.append(name.as_str(), value);
        },
        HeaderAppendAction::AddIfAbsent => {
            if !headers.contains_key(name.as_str()) {
                headers.append(name.as_str(), value);
            }
        },
        HeaderAppendAction::OverwriteIfExistsOrAdd => {
            headers.insert(name.as_str(), value);
        },
        HeaderAppendAction::OverwriteIfExists => {
            if headers.contains_key(name.as_str()) {
                headers.insert(name.as_str(), value);
            }
        },
    }
}

/// Applies a header mutation to trailers.
pub fn apply_trailer_mutations(trailers: &mut HeaderMap, mutation: &HeaderMutation, mutation_rules: Option<
    &MutationVerdicts,
>) -> (r: Result<(), HeaderMutationError>)
    requires
        verdicts_fit(*mutation, rules_of(mutation_rules)),
    ensures
        final(trailers)@ == mutate_headers(old(trailers)@, *mutation, rules_of(mutation_rules)).0,
        result_matches(r, mutate_headers(old(trailers)@, *mutation, rules_of(mutation_rules)).1),
        adds_no_pseudo_header(old(trailers)@, final(trailers)@),
{
    apply_header_mutations(trailers, mutation, mutation_rules)
}

// ---------------------------------------------------------------------------
// Pseudo-headers

/// The position of the last header to set whose name is `key`, among the
/// first `n`.
pub open spec fn last_with_key(sets: Seq<HeaderValueOption>, key: Seq<char>, n: int) -> Option<int>
    decreases n,
{
    if n <= 0 {
        None
    } else if sets[n - 1].header matches Some(h) && h.key@ == key {
        Some(n - 1)
    } else {
        last_with_key(sets, key, n - 1)
    }
}

/// The position of the (last) header to set that carries the pseudo-header `key`.
pub open spec fn pseudo_at(m: HeaderMutation, key: Seq<char>) -> Option<int> {
    last_with_key(m.set_headers@, key, m.set_headers@.len() as int)
}

/// What a header to set carries as text.
pub enum Extracted {
    /// No header.
    Absent,
    /// Raw bytes that are not UTF-8.
    Invalid,
    /// The value's text.
    Text(Seq<char>),
}

/// The text of a header to set: its raw bytes decoded when there are any,
/// else its text value.
pub open spec fn extract_text(o: HeaderValueOption) -> Extracted {
    match o.header {
        Some(h) => if h.raw_value@.len() > 0 {
            if valid_utf8(h.raw_value@) {
                Extracted::Text(decode_utf8(h.raw_value@))
            } else {
                Extracted::Invalid
            }
        } else {
            Extracted::Text(h.value@)
        },
        None => Extracted::Absent,
    }
}

/// The text a pseudo-header asks for, if it is present, permitted and readable.
pub open spec fn pseudo_text(m: HeaderMutation, rules: Option<MutationVerdicts>, key: Seq<char>) -> Option<
    Seq<char>,
> {
    match pseudo_at(m, key) {
        Some(i) => if set_permitted(rules, i) {
            match extract_text(m.set_headers@[i]) {
                Extracted::Text(t) => Some(t),
                _ => None,
            }
        } else {
            None
        },
        None => None,
    }
}

/// A parsed replacement if the text parses, else the current value.
pub open spec fn replaced_by(current: Option<Seq<char>>, parsed: Option<Seq<char>>) -> Option<Seq<char>> {
    match parsed {
        Some(p) => Some(p),
        None => current,
    }
}

/// The parse of an optional text.
pub open spec fn parse_opt(t: Option<Seq<char>>, parse: spec_fn(Seq<u8>) -> Option<Seq<char>>) -> Option<Seq<char>> {
    match t {
        Some(s) => parse(encode_utf8(s)),
        None => None,
    }
}

/// The method after the `:method` pseudo-header.
pub open spec fn mutated_method(method: Seq<char>, m: HeaderMutation, rules: Option<MutationVerdicts>) -> Seq<char> {
    match parse_opt(pseudo_text(m, rules, ":method"@), |b: Seq<u8>| method_from_bytes(b)) {
        Some(new_method) => new_method,
        None => method,
    }
}

/// The URI parts after the `:scheme`, `:authority` and `:path` pseudo-headers.
/// They change together, and only if the new parts still make a URI.
pub open spec fn mutated_uri(uri: UriPartsView, m: HeaderMutation, rules: Option<MutationVerdicts>) -> UriPartsView {
    if pseudo_at(m, ":scheme"@) is None && pseudo_at(m, ":authority"@) is None && pseudo_at(m, ":path"@) is None {
        uri
    } else {
        let parts = UriPartsView {
            scheme: replaced_by(uri.scheme, parse_opt(pseudo_text(m, rules, ":scheme"@), |b: Seq<u8>| scheme_from_bytes(b))),
            authority: replaced_by(
                uri.authority,
                parse_opt(pseudo_text(m, rules, ":authority"@), |b: Seq<u8>| authority_from_bytes(b)),
            ),
            path_and_query: replaced_by(
                uri.path_and_query,
                parse_opt(pseudo_text(m, rules, ":path"@), |b: Seq<u8>| path_and_query_from_bytes(b)),
            ),
        };
        if uri_parts_valid(parts) {
            parts
        } else {
            uri
        }
    }
}

/// The digits of a text that `str::parse::<u16>` reads: the text without
/// one leading `+`.
pub open spec fn unsigned_digits(t: Seq<char>) -> Seq<char> {
    if t.len() > 0 && t[0] == '+' {
        t.drop_first()
    } else {
        t
    }
}

/// A character among `0` to `9`.
pub open spec fn is_decimal_digit(c: char) -> bool {
    '0' <= c && c <= '9'
}

/// Every character is a decimal digit.
pub open spec fn all_decimal(d: Seq<char>) -> bool {
    forall|k: int| 0 <= k < d.len() ==> is_decimal_digit(#[trigger] d[k])
}

/// What Rust's `str::parse::<u16>` makes of a text: an optional `+` then
/// decimal digits, at most 65535.
pub open spec fn parse_u16_text(t: Seq<char>) -> Option<u16> {
    let digits = unsigned_digits(t);
    if digits.len() > 0 && all_decimal(digits) && decimal_value(digits) <= 65535 {
        Some(decimal_value(digits) as u16)
    } else {
        None
    }
}

/// The number that decimal digit characters denote.
pub open spec fn decimal_value(d: Seq<char>) -> int
    decreases d.len(),
{
    if d.len() == 0 {
        0
    } else {
        decimal_value(d.drop_last()) * 10 + (d.last() as int - 48)
    }
}

/// The status after the `:status` pseudo-header.
pub open spec fn mutated_status(status: u16, m: HeaderMutation, rules: Option<MutationVerdicts>) -> u16 {
    match pseudo_text(m, rules, ":status"@) {
        Some(t) => match parse_u16_text(t) {
            Some(code) => if is_status_code(code) {
                code
            } else {
                status
            },
            None => status,
        },
        None => status,
    }
}

/// The positions of the pseudo-headers among the headers to set.
struct PseudoHeaders {
    method: Option<usize>,
    scheme: Option<usize>,
    authority: Option<usize>,
    path: Option<usize>,
    status: Option<usize>,
}

fn last_index_of(sets: &Vec<HeaderValueOption>, key: &String) -> (r: Option<usize>)
    ensures
        match r {
            Some(i) => last_with_key(sets@, key@, sets@.len() as int) == Some(i as int) && i < sets@.len(),
            None => last_with_key(sets@, key@, sets@.len() as int) is None,
        },
{
    let mut found: Option<usize> = None;
    let mut i: usize = 0;
    while i < sets.len()
        invariant
            i <= sets@.len(),
            match found {
                Some(j) => last_with_key(sets@, key@, i as int) == Some(j as int) && j < i,
                None => last_with_key(sets@, key@, i as int) is None,
            },
        decreases sets@.len() - i,
    {
        match &sets[i].header {
            Some(h) => {
                if h.key == *key {
                    found = Some(i);
                }
            },
            None => {},
        }
        i += 1;
    }
    found
}

fn pseudo_headers(m: &HeaderMutation) -> (p: PseudoHeaders)
    ensures
        opt_int(p.method) == pseudo_at(*m, ":method"@),
        opt_int(p.scheme) == pseudo_at(*m, ":scheme"@),
        opt_int(p.authority) == pseudo_at(*m, ":authority"@),
        opt_int(p.path) == pseudo_at(*m, ":path"@),
        opt_int(p.status) == pseudo_at(*m, ":status"@),
        p.method matches Some(i) ==> i < m.set_headers@.len(),
        p.scheme matches Some(i) ==> i < m.set_headers@.len(),
        p.authority matches Some(i) ==> i < m.set_headers@.len(),
        p.path matches Some(i) ==> i < m.set_headers@.len(),
        p.status matches Some(i) ==> i < m.set_headers@.len(),
{
    PseudoHeaders {
        method: last_index_of(&m.set_headers, &":method".to_owned()),
        scheme: last_index_of(&m.set_headers, &":scheme".to_owned()),
        authority: last_index_of(&m.set_headers, &":authority".to_owned()),
        path: last_index_of(&m.set_headers, &":path".to_owned()),
        status: last_index_of(&m.set_headers, &":status".to_owned()),
    }
}

spec fn opt_int(o: Option<usize>) -> Option<int> {
    match o {
        Some(i) => Some(i as int),
        None => None,
    }
}

/// The text of a header to set (see `extract_text`).
fn extract_value_text(o: &HeaderValueOption) -> (r: Option<String>)
    ensures
        match r {
            Some(t) => extract_text(*o) == Extracted::Text(t@),
            None => !(extract_text(*o) is Text),
        },
{
    match &o.header {
        Some(h) => if h.raw_value.len() > 0 {
            utf8_to_string(vstd::slice::slice_to_vec(h.raw_value.as_slice()))
        } else {
            Some(h.value.clone())
        },
        None => None,
    }
}

/// The text of the pseudo-header at `at`, if permitted (see `pseudo_text`).
fn permitted_text(m: &HeaderMutation, rules: Option<&MutationVerdicts>, at: Option<usize>) -> (r: Option<String>)
    requires
        verdicts_fit(*m, rules_of(rules)),
        at matches Some(i) ==> i < m.set_headers@.len(),
    ensures
        match r {
            Some(t) => at matches Some(i) && set_permitted(rules_of(rules), i as int) && extract_text(
                m.set_headers@[i as int],
            ) == Extracted::Text(t@),
            None => !(at matches Some(i) && set_permitted(rules_of(rules), i as int) && extract_text(
                m.set_headers@[i as int],
            ) is Text),
        },
{
    match at {
        Some(i) => {
            let permitted = match rules {
                Some(r) => r.sets_permitted[i],
                None => true,
            };
            if permitted {
                extract_value_text(&m.set_headers[i])
            } else {
                None
            }
        },
        None => None,
    }
}

/// Reads text as `str::parse::<u16>` does.
pub fn parse_u16(t: &String) -> (r: Option<u16>)
    ensures
        r == parse_u16_text(t@),
{
    let chars = crate::text::chars_of(t.as_str());
    let start: usize = if chars.len() > 0 && chars[0] == '+' {
        1
    } else {
        0
    };
    let ghost digits = unsigned_digits(t@);
    assert(digits =~= chars@.subrange(start as int, chars@.len() as int));
    if start >= chars.len() {
        return None;
    }
    let mut acc: u32 = 0;
    let mut k = start;
    assert(chars@.subrange(start as int, start as int) =~= Seq::<char>::empty());
    while k < chars.len()
        invariant
            start <= k <= chars@.len(),
            chars@ == t@,
            digits == unsigned_digits(t@),
            digits =~= chars@.subrange(start as int, chars@.len() as int),
            forall|j: int| start <= j < k ==> is_decimal_digit(#[trigger] chars@[j]),
            acc == decimal_value(chars@.subrange(start as int, k as int)),
            acc <= 65535,
        decreases chars@.len() - k,
    {
        let c = chars[k];
        if !('0' <= c && c <= '9') {
            proof {
                assert(digits[k - start] == c);
                assert(!is_decimal_digit(digits[k - start]));
                assert(!all_decimal(digits));
            }
            return None;
        }
        let ghost prev = chars@.subrange(start as int, k as int);
        assert(chars@.subrange(start as int, k + 1).drop_last() =~= prev);
        let next = acc * 10 + (c as u32 - 48);
        if next > 65535 {
            proof {
                let full = chars@.subrange(start as int, chars@.len() as int);
                if all_decimal(full) {
                    lemma_decimal_grows(full, (k + 1 - start) as int);
                    assert(full.subrange(0, (k + 1 - start) as int) =~= chars@.subrange(start as int, k + 1));
                }
            }
            return None;
        }
        acc = next;
        k += 1;
    }
    assert(chars@.subrange(start as int, k as int) =~= digits);
    assert(all_decimal(digits));
    Some(acc as u16)
}

/// A longer run of digits is worth at least as much as its prefix.
proof fn lemma_decimal_grows(d: Seq<char>, n: int)
    requires
        0 <= n <= d.len(),
        all_decimal(d),
    ensures
        decimal_value(d) >= decimal_value(d.subrange(0, n)),
        decimal_value(d.subrange(0, n)) >= 0,
    decreases d.len(),
{
    if d.len() == 0 {
        assert(d.subrange(0, n) =~= d);
    } else if n == d.len() {
        assert(d.subrange(0, n) =~= d);
        lemma_decimal_grows(d.drop_last(), n - 1);
    } else {
        assert(d.drop_last().subrange(0, n) =~= d.subrange(0, n));
        lemma_decimal_grows(d.drop_last(), n);
        assert(d[d.len() - 1] == d.last());
    }
}

/// The parse of an optional text with one of the `http` parsers.
fn parse_text_with(t: &Option<String>, which: u8) -> (r: Option<String>)
    requires
        which < 4,
    ensures
        opt_chars(r) == parse_opt(
            opt_chars(*t),
            if which == 0 {
                |b: Seq<u8>| method_from_bytes(b)
            } else if which == 1 {
                |b: Seq<u8>| scheme_from_bytes(b)
            } else if which == 2 {
                |b: Seq<u8>| authority_from_bytes(b)
            } else {
                |b: Seq<u8>| path_and_query_from_bytes(b)
            },
        ),
{
    match t {
        Some(s) => {
            let b = s.as_str().as_bytes();
            if which == 0 {
                parse_method(b)
            } else if which == 1 {
                parse_scheme(b)
            } else if which == 2 {
                parse_authority(b)
            } else {
                parse_path_and_query(b)
            }
        },
        None => None,
    }
}

fn clone_opt_string(o: &Option<String>) -> (r: Option<String>)
    ensures
        opt_chars(r) == opt_chars(*o),
{
    match o {
        Some(s) => Some(s.clone()),
        None => None,
    }
}

/// Applies a header mutation to a request: the `:method` pseudo-header sets
/// the method; `:scheme`, `:authority` and `:path` set the URI's parts; then
/// the headers are mutated as `apply_header_mutations` does. A pseudo-header
/// value that does not parse is ignored.
pub fn apply_request_header_mutations(req: &mut RequestHead, mutation: &HeaderMutation, mutation_rules: Option<
    &MutationVerdicts,
>) -> (r: Result<(), HeaderMutationError>)
    requires
        verdicts_fit(*mutation, rules_of(mutation_rules)),
    ensures
        final(req).method@ == mutated_method(old(req).method@, *mutation, rules_of(mutation_rules)),
        crate::http_parts::uri_parts_of(*final(req)) == mutated_uri(
            crate::http_parts::uri_parts_of(*old(req)),
            *mutation,
            rules_of(mutation_rules),
        ),
        final(req).headers@ == mutate_headers(old(req).headers@, *mutation, rules_of(mutation_rules)).0,
        result_matches(r, mutate_headers(old(req).headers@, *mutation, rules_of(mutation_rules)).1),
        adds_no_pseudo_header(old(req).headers@, final(req).headers@),
{
    let pseudo = pseudo_headers(mutation);
    let method_text = permitted_text(mutation, mutation_rules, pseudo.method);
    match parse_text_with(&method_text, 0) {
        Some(m) => {
            req.method = m;
        },
        None => {},
    }
    if pseudo.scheme.is_some() || pseudo.authority.is_some() || pseudo.path.is_some() {
        let scheme = match parse_text_with(&permitted_text(mutation, mutation_rules, pseudo.scheme), 1) {
            Some(s) => Some(s),
            None => clone_opt_string(&req.scheme),
        };
        let authority = match parse_text_with(&permitted_text(mutation, mutation_rules, pseudo.authority), 2) {
            Some(a) => Some(a),
            None => clone_opt_string(&req.authority),
        };
        let path_and_query = match parse_text_with(&permitted_text(mutation, mutation_rules, pseudo.path), 3) {
            Some(p) => Some(p),
            None => clone_opt_string(&req.path_and_query),
        };
        let valid = if scheme.is_some() {
            authority.is_some() && path_and_query.is_some()
        } else {
            !(authority.is_some() && path_and_query.is_some())
        };
        if valid {
            req.scheme = scheme;
            req.authority = authority;
            req.path_and_query = path_and_query;
        }
    }
    apply_header_mutations(&mut req.headers, mutation, mutation_rules)
}

/// Applies a header mutation to a response: the `:status` pseudo-header sets
/// the status when it is a valid status code; then the headers are mutated as
/// `apply_header_mutations` does.
pub fn apply_response_header_mutations(resp: &mut ResponseHead, mutation: &HeaderMutation, mutation_rules: Option<
    &MutationVerdicts,
>) -> (r: Result<(), HeaderMutationError>)
    requires
        verdicts_fit(*mutation, rules_of(mutation_rules)),
    ensures
        final(resp).status == mutated_status(old(resp).status, *mutation, rules_of(mutation_rules)),
        final(resp).headers@ == mutate_headers(old(resp).headers@, *mutation, rules_of(mutation_rules)).0,
        result_matches(r, mutate_headers(old(resp).headers@, *mutation, rules_of(mutation_rules)).1),
        adds_no_pseudo_header(old(resp).headers@, final(resp).headers@),
{
    let pseudo = pseudo_headers(mutation);
    match permitted_text(mutation, mutation_rules, pseudo.status) {
        Some(t) => match parse_u16(&t) {
            Some(code) => if valid_status_code(code) {
                resp.status = code;
            },
            None => {},
        },
        None => {},
    }
    apply_header_mutations(&mut resp.headers, mutation, mutation_rules)
}

/// A mutation that neither removes nor sets a header leaves the headers as
/// they were and succeeds, whatever the rules.
pub proof fn law_empty_mutation_changes_nothing(h: Map<Seq<char>, Seq<Seq<u8>>>, m: HeaderMutation, rules: Option<MutationVerdicts>)
    requires
        m.remove_headers@.len() == 0,
        m.set_headers@.len() == 0,
    ensures
        mutate_headers(h, m, rules) == (h, None::<MutationFailure>),
{
}

/// The header name `k` is one that removal number `i` of the mutation names.
pub open spec fn removal_names(m: HeaderMutation, i: int, k: Seq<char>) -> bool {
    0 <= i < m.remove_headers@.len() && header_name_from_bytes(encode_utf8(m.remove_headers@[i]@)) == Some(k)
}

/// The header name `k` is one that set number `i` of the mutation names.
pub open spec fn set_names(m: HeaderMutation, i: int, k: Seq<char>) -> bool {
    0 <= i < m.set_headers@.len() && (m.set_headers@[i].header matches Some(hv) && header_name_from_bytes(
        encode_utf8(hv.key@),
    ) == Some(k))
}

proof fn lemma_removals_leave_other(h: Map<Seq<char>, Seq<Seq<u8>>>, m: HeaderMutation, rules: Option<MutationVerdicts>, i: int, k: Seq<char>)
    requires
        0 <= i,
        forall|j: int| !removal_names(m, j, k),
    ensures
        removals_from(h, m, rules, i).0.contains_key(k) == h.contains_key(k),
        h.contains_key(k) ==> removals_from(h, m, rules, i).0[k] == h[k],
    decreases m.remove_headers@.len() - i,
{
    if i < m.remove_headers@.len() {
        assert(!removal_names(m, i, k));
        let name = m.remove_headers@[i]@;
        let h2 = match header_name_from_bytes(encode_utf8(name)) {
            Some(n) => h.remove(n),
            None => h,
        };
        lemma_removals_leave_other(h, m, rules, i + 1, k);
        lemma_removals_leave_other(h2, m, rules, i + 1, k);
    }
}

proof fn lemma_sets_leave_other(h: Map<Seq<char>, Seq<Seq<u8>>>, m: HeaderMutation, rules: Option<MutationVerdicts>, i: int, k: Seq<char>)
    requires
        0 <= i,
        forall|j: int| !set_names(m, j, k),
    ensures
        sets_from(h, m, rules, i).0.contains_key(k) == h.contains_key(k),
        h.contains_key(k) ==> sets_from(h, m, rules, i).0[k] == h[k],
    decreases m.set_headers@.len() - i,
{
    if i < m.set_headers@.len() {
        assert(!set_names(m, i, k));
        let o = m.set_headers@[i];
        match o.header {
            None => {
                lemma_sets_leave_other(h, m, rules, i + 1, k);
            },
            Some(hv) => {
                lemma_sets_leave_other(h, m, rules, i + 1, k);
                lemma_sets_leave_other(set_one(h, hv, o.append_action), m, rules, i + 1, k);
            },
        }
    }
}

proof fn lemma_no_rules_no_refusal(h: Map<Seq<char>, Seq<Seq<u8>>>, m: HeaderMutation, i: int)
    requires
        0 <= i,
    ensures
        removals_from(h, m, None, i).1 is None,
        sets_from(h, m, None, i).1 is None,
    decreases m.remove_headers@.len() + m.set_headers@.len() - i,
{
    if i < m.remove_headers@.len() {
        let name = m.remove_headers@[i]@;
        let h2 = match header_name_from_bytes(encode_utf8(name)) {
            Some(n) => h.remove(n),
            None => h,
        };
        lemma_no_rules_no_refusal(h2, m, i + 1);
    }
    if i < m.set_headers@.len() {
        let o = m.set_headers@[i];
        match o.header {
            None => lemma_no_rules_no_refusal(h, m, i + 1),
            Some(hv) => lemma_no_rules_no_refusal(set_one(h, hv, o.append_action), m, i + 1),
        }
    }
}

/// A mutation changes only the headers it names: a header that none of its
/// removals and none of its sets names keeps its values, whatever the
/// rules; and without rules a mutation is never refused.
pub proof fn law_mutation_changes_only_named_headers(
    h: Map<Seq<char>, Seq<Seq<u8>>>,
    m: HeaderMutation,
    rules: Option<MutationVerdicts>,
    k: Seq<char>,
)
    requires
        forall|j: int| !removal_names(m, j, k),
        forall|j: int| !set_names(m, j, k),
    ensures
        mutate_headers(h, m, rules).0.contains_key(k) == h.contains_key(k),
        h.contains_key(k) ==> mutate_headers(h, m, rules).0[k] == h[k],
        mutate_headers(h, m, None).1 is None,
{
    lemma_removals_leave_other(h, m, rules, 0, k);
    let h1 = removals_from(h, m, rules, 0).0;
    lemma_sets_leave_other(h1, m, rules, 0, k);
    lemma_no_rules_no_refusal(h, m, 0);
    lemma_no_rules_no_refusal(removals_from(h, m, None, 0).0, m, 0);
}

/// What each append action does to the values of the header it names:
/// appending keeps the old values and adds the new one last; adding only
/// when absent never touches a present header; overwriting leaves exactly
/// the new value (and `OverwriteIfExists` adds nothing when the header is
/// absent). Every other header keeps its values.
pub proof fn law_append_actions(h: Map<Seq<char>, Seq<Seq<u8>>>, n: Seq<char>, v: Seq<u8>, action: HeaderAppendAction, k: Seq<char>)
    ensures
        k != n ==> add_value(h, n, v, action).contains_key(k) == h.contains_key(k),
        k != n && h.contains_key(k) ==> add_value(h, n, v, action)[k] == h[k],
        action == HeaderAppendAction::OverwriteIfExistsOrAdd ==> add_value(h, n, v, action).contains_key(n)
            && add_value(h, n, v, action)[n] == seq![v],
        action == HeaderAppendAction::OverwriteIfExists && h.contains_key(n) ==> add_value(h, n, v, action)[n] == seq![v],
        action == HeaderAppendAction::OverwriteIfExists && !h.contains_key(n) ==> add_value(h, n, v, action) == h,
        action == HeaderAppendAction::AddIfAbsent && h.contains_key(n) ==> add_value(h, n, v, action) == h,
        action == HeaderAppendAction::AddIfAbsent && !h.contains_key(n) ==> add_value(h, n, v, action)[n] == seq![v],
        action == HeaderAppendAction::AppendIfExistsOrAdd && h.contains_key(n) ==> add_value(h, n, v, action)[n] == h[n].push(v),
        action == HeaderAppendAction::AppendIfExistsOrAdd && !h.contains_key(n) ==> add_value(h, n, v, action)[n] == seq![v],
        add_value(h, n, v, action).contains_key(n) == (h.contains_key(n) || action != HeaderAppendAction::OverwriteIfExists),
{
}

/// Setting one header: a name that does not parse, or a value that is not a
/// valid header value, changes nothing; otherwise the parsed name gets the
/// value as its append action says (see `law_append_actions`), and an
/// overwrite leaves that value alone under the name.
pub proof fn law_set_one_header(h: Map<Seq<char>, Seq<Seq<u8>>>, hv: HeaderValue, action: HeaderAppendAction)
    ensures
        header_name_from_bytes(encode_utf8(hv.key@)) is None ==> set_one(h, hv, action) == h,
        !is_header_value(value_bytes(hv)) ==> set_one(h, hv, action) == h,
        forall|n: Seq<char>|
            #[trigger] header_name_from_bytes(encode_utf8(hv.key@)) == Some(n) && is_header_value(value_bytes(hv))
                ==> set_one(h, hv, action) == add_value(h, n, value_bytes(hv), action),
        forall|n: Seq<char>|
            #[trigger] header_name_from_bytes(encode_utf8(hv.key@)) == Some(n) && is_header_value(value_bytes(hv))
                && (action == HeaderAppendAction::OverwriteIfExistsOrAdd
                || (action == HeaderAppendAction::OverwriteIfExists && h.contains_key(n)))
                ==> set_one(h, hv, action).contains_key(n) && set_one(h, hv, action)[n] == seq![value_bytes(hv)],
{
    if let Some(n) = header_name_from_bytes(encode_utf8(hv.key@)) {
        law_append_actions(h, n, value_bytes(hv), action, n);
    }
}

} // verus!
