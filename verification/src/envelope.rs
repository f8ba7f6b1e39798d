//! The response envelope: the decoded top-level `{data, errors}` object,
//! and its classification into usable data or one failure.

use vstd::prelude::*;
use vstd::string::StringExecFns;
use crate::json::{jv, jv_pairs, jv_seq, lemma_jv_pairs_drop_last, lemma_obj_lookup_push, obj_lookup, Json, JsonV};
use crate::parse::{digit_val, digit_val_x, is_digit, p_doc, parse_document};
use crate::text::{chars_of, str_eq};

verus! {

/// The value a lookup finds, seen mathematically.
pub open spec fn opt_jv(o: Option<Json>) -> Option<JsonV> {
    match o {
        Some(x) => Some(jv(x)),
        None => None,
    }
}

/// The mathematical shape of one error location.
pub struct LocationV {
    pub line: int,
    pub column: int,
}

/// A line/column pair inside an error report.
#[derive(Debug, Clone, PartialEq, Eq)]
pub struct Location {
    pub line: i32,
    pub column: i32,
}

impl View for Location {
    type V = LocationV;

    open spec fn view(&self) -> LocationV {
        LocationV { line: self.line as int, column: self.column as int }
    }
}

/// The mathematical shape of one API-reported error.
pub struct ApiErrorV {
    pub message: Seq<char>,
    pub locations: Option<Seq<LocationV>>,
    pub path: Option<Seq<Seq<char>>>,
}

/// One error reported by the API: a message, and optional locations and
/// field path.  Only the message is surfaced; the rest is decoded for
/// completeness.
#[derive(Debug, Clone, PartialEq, Eq)]
pub struct ApiError {
    pub message: String,
    pub locations: Option<Vec<Location>>,
    pub path: Option<Vec<String>>,
}

impl View for ApiError {
    type V = ApiErrorV;

    open spec fn view(&self) -> ApiErrorV {
        ApiErrorV {
            message: self.message@,
            locations: match self.locations {
                Some(v) => Some(Seq::new(v@.len(), |i: int| v@[i]@)),
                None => None,
            },
            path: match self.path {
                Some(v) => Some(Seq::new(v@.len(), |i: int| v@[i]@)),
                None => None,
            },
        }
    }
}

/// The view of a decoded error list.
pub open spec fn errs_view(v: Seq<ApiError>) -> Seq<ApiErrorV> {
    Seq::new(v.len(), |i: int| v[i]@)
}

/// The mathematical shape of the envelope.
pub struct EnvelopeV {
    pub data: Option<JsonV>,
    pub errors: Option<Seq<ApiErrorV>>,
}

/// The decoded top-level response: optional data, optional error list.
/// A JSON `null` under either key counts as the key being absent.
#[derive(Debug)]
pub struct Envelope {
    pub data: Option<Json>,
    pub errors: Option<Vec<ApiError>>,
}

impl View for Envelope {
    type V = EnvelopeV;

    open spec fn view(&self) -> EnvelopeV {
        EnvelopeV {
            data: match self.data {
                Some(d) => Some(jv(d)),
                None => None,
            },
            errors: match self.errors {
                Some(v) => Some(errs_view(v@)),
                None => None,
            },
        }
    }
}

/// How a call fails: the exchange itself, the decoding of the body, or
/// errors reported by the API.
#[derive(Debug, Clone, PartialEq, Eq)]
pub enum ClientError {
    Transport(String),
    Decode(String),
    Api(String),
}

/// The value of a digit string, most significant first.
pub open spec fn digits_val(s: Seq<char>) -> int
    decreases s.len(),
{
    if s.len() == 0 {
        0
    } else {
        digits_val(s.drop_last()) * 10 + digit_val(s.last())
    }
}

/// Every character is a decimal digit.
pub open spec fn all_digits(s: Seq<char>) -> bool {
    forall|i: int| 0 <= i < s.len() ==> is_digit(s[i])
}

/// The integer denoted by a literal of an optional sign and digits only;
/// a fraction, an exponent or an empty digit run denotes no integer.
pub open spec fn sp_int_text(t: Seq<char>) -> Option<int> {
    let neg: bool = t.len() > 0 && t[0] == '-';
    let ds: Seq<char> = if neg { t.drop_first() } else { t };
    if ds.len() > 0 && all_digits(ds) {
        Some(if neg { -digits_val(ds) } else { digits_val(ds) })
    } else {
        None
    }
}

/// A number value that fits an `i32`.
pub open spec fn sp_i32_num(j: JsonV) -> Option<int> {
    match j {
        JsonV::Num(t) => match sp_int_text(t) {
            Some(v) => if -0x8000_0000 <= v && v < 0x8000_0000 {
                Some(v)
            } else {
                None
            },
            None => None,
        },
        _ => None,
    }
}

/// One location object: integer `line` and `column` members.
pub open spec fn sp_location(j: JsonV) -> Option<LocationV> {
    match j {
        JsonV::Obj(ps) => match (obj_lookup(ps, "line"@), obj_lookup(ps, "column"@)) {
            (Some(lj), Some(cj)) => match (sp_i32_num(lj), sp_i32_num(cj)) {
                (Some(l), Some(c)) => Some(LocationV { line: l, column: c }),
                _ => None,
            },
            _ => None,
        },
        _ => None,
    }
}

/// The locations from index `i` on; all must be well-formed.
pub open spec fn sp_locations(items: Seq<JsonV>, i: int) -> Option<Seq<LocationV>>
    decreases items.len() - i,
{
    if !(0 <= i && i < items.len()) {
        Some(Seq::empty())
    } else {
        match sp_location(items[i]) {
            Some(l) => match sp_locations(items, i + 1) {
                Some(r) => Some(seq![l] + r),
                None => None,
            },
            None => None,
        }
    }
}

/// The path segments from index `i` on; all must be strings.
pub open spec fn sp_path(items: Seq<JsonV>, i: int) -> Option<Seq<Seq<char>>>
    decreases items.len() - i,
{
    if !(0 <= i && i < items.len()) {
        Some(Seq::empty())
    } else {
        match items[i] {
            JsonV::Str(s) => match sp_path(items, i + 1) {
                Some(r) => Some(seq![s] + r),
                None => None,
            },
            _ => None,
        }
    }
}

/// One reported error: a string `message` is required; `locations` and
/// `path` may be absent or null, and are decoded when present.
pub open spec fn sp_api_error(j: JsonV) -> Option<ApiErrorV> {
    match j {
        JsonV::Obj(ps) => match obj_lookup(ps, "message"@) {
            Some(JsonV::Str(m)) => {
                let locs: Option<Option<Seq<LocationV>>> = match obj_lookup(ps, "locations"@) {
                    None => Some(None),
                    Some(JsonV::Null) => Some(None),
                    Some(JsonV::Arr(ls)) => match sp_locations(ls, 0) {
                        Some(x) => Some(Some(x)),
                        None => None,
                    },
                    Some(_) => None,
                };
                let pth: Option<Option<Seq<Seq<char>>>> = match obj_lookup(ps, "path"@) {
                    None => Some(None),
                    Some(JsonV::Null) => Some(None),
                    Some(JsonV::Arr(ss)) => match sp_path(ss, 0) {
                        Some(x) => Some(Some(x)),
                        None => None,
                    },
                    Some(_) => None,
                };
                match (locs, pth) {
                    (Some(l), Some(p)) => Some(ApiErrorV { message: m, locations: l, path: p }),
                    _ => None,
                }
            },
            _ => None,
        },
        _ => None,
    }
}

/// The reported errors from index `i` on; all must be well-formed.
pub open spec fn sp_errors_list(items: Seq<JsonV>, i: int) -> Option<Seq<ApiErrorV>>
    decreases items.len() - i,
{
    if !(0 <= i && i < items.len()) {
        Some(Seq::empty())
    } else {
        match sp_api_error(items[i]) {
            Some(e) => match sp_errors_list(items, i + 1) {
                Some(r) => Some(seq![e] + r),
                None => None,
            },
            None => None,
        }
    }
}

/// The envelope of a decoded body: the top level must be an object;
/// `data` may hold anything, `errors` must be absent, null, or a list of
/// well-formed error objects.  Unknown members are ignored.
pub open spec fn sp_envelope(j: JsonV) -> Option<EnvelopeV> {
    match j {
        JsonV::Obj(ps) => {
            let data: Option<JsonV> = match obj_lookup(ps, "data"@) {
                None => None,
                Some(JsonV::Null) => None,
                Some(d) => Some(d),
            };
            match obj_lookup(ps, "errors"@) {
                None => Some(EnvelopeV { data, errors: None }),
                Some(JsonV::Null) => Some(EnvelopeV { data, errors: None }),
                Some(JsonV::Arr(items)) => match sp_errors_list(items, 0) {
                    Some(es) => Some(EnvelopeV { data, errors: Some(es) }),
                    None => None,
                },
                Some(_) => None,
            }
        },
        _ => None,
    }
}

/// All messages, joined by `", "`, in their original order.
pub open spec fn joined(es: Seq<ApiErrorV>) -> Seq<char>
    decreases es.len(),
{
    if es.len() == 0 {
        Seq::empty()
    } else if es.len() == 1 {
        es[0].message
    } else {
        joined(es.drop_last()) + ", "@ + es.last().message
    }
}

/// `digits_val` never shrinks as digits are appended.
proof fn lemma_digits_val_mono(s: Seq<char>, k: int)
    requires
        0 <= k <= s.len(),
        all_digits(s),
    ensures
        0 <= digits_val(s.take(k)) <= digits_val(s),
    decreases s.len() - k,
{
    if k == s.len() {
        assert(s.take(k) =~= s);
        lemma_digits_val_nonneg(s);
    } else {
        lemma_digits_val_mono(s, k + 1);
        assert(s.take(k + 1).drop_last() =~= s.take(k));
        assert(s.take(k + 1).last() == s[k]);
        lemma_digits_val_nonneg(s.take(k));
    }
}

/// A digit string has a non-negative value.
proof fn lemma_digits_val_nonneg(s: Seq<char>)
    requires
        all_digits(s),
    ensures
        digits_val(s) >= 0,
    decreases s.len(),
{
    if s.len() > 0 {
        assert(all_digits(s.drop_last()));
        lemma_digits_val_nonneg(s.drop_last());
    }
}

#[verifier::loop_isolation(false)]
fn e_i32_num(j: &Json) -> (r: Option<i32>)
    ensures
        match r {
            Some(v) => sp_i32_num(j@) == Some(v as int),
            None => sp_i32_num(j@) is None,
        },
{
    let t: &String = match j {
        Json::Num(t) => t,
        _ => {
            return None;
        },
    };
    let cs = chars_of(t.as_str());
    let n = cs.len();
    let neg = n > 0 && cs[0] == '-';
    let start: usize = if neg { 1 } else { 0 };
    let ghost ds = if neg { t@.drop_first() } else { t@ };
    proof {
        assert(ds =~= cs@.subrange(start as int, n as int));
    }
    if n == start {
        return None;
    }
    let mut acc: i64 = 0;
    let mut k: usize = start;
    proof {
        assert(ds.take(0) =~= Seq::<char>::empty());
    }
    while k < n
        invariant
            start <= k <= n,
            n == cs@.len(),
            ds =~= cs@.subrange(start as int, n as int),
            all_digits(ds.take(k - start)),
            acc == digits_val(ds.take(k - start)),
            0 <= acc < 0x1_0000_0000,
        decreases n - k,
    {
        let d = digit_val_x(cs[k]);
        if d < 0 {
            proof {
                assert(ds[k - start] == cs@[k as int]);
                assert(!is_digit(ds[k - start]));
                assert(!all_digits(ds));
            }
            return None;
        }
        proof {
            assert(ds.take(k - start + 1).drop_last() =~= ds.take(k - start));
            assert(ds.take(k - start + 1).last() == ds[k - start]);
            assert(ds[k - start] == cs@[k as int]);
        }
        acc = acc * 10 + (d as i64);
        k = k + 1;
        proof {
            assert(acc == digits_val(ds.take(k - start)));
        }
        if acc >= 0x1_0000_0000 {
            // any further digits only grow the value, so it cannot fit
            proof {
                if all_digits(ds) {
                    lemma_digits_val_mono(ds, k - start);
                    assert(digits_val(ds) >= acc);
                }
            }
            return None;
        }
    }
    proof {
        assert(ds.take(n - start) =~= ds);
    }
    if neg {
        if acc <= 0x8000_0000 {
            Some((-acc) as i32)
        } else {
            None
        }
    } else {
        if acc < 0x8000_0000 {
            Some(acc as i32)
        } else {
            None
        }
    }
}

fn e_location(j: &Json) -> (r: Option<Location>)
    ensures
        match r {
            Some(l) => sp_location(j@) == Some(l@),
            None => sp_location(j@) is None,
        },
{
    let lj = match j.get("line") {
        Some(x) => x,
        None => {
            return None;
        },
    };
    let cj = match j.get("column") {
        Some(x) => x,
        None => {
            return None;
        },
    };
    match (e_i32_num(lj), e_i32_num(cj)) {
        (Some(l), Some(c)) => Some(Location { line: l, column: c }),
        _ => None,
    }
}

fn e_locations(items: &Vec<Json>, i: usize) -> (r: Option<Vec<Location>>)
    requires
        i <= items@.len(),
    ensures
        match r {
            Some(ls) => sp_locations(jv_seq(items@), i as int) == Some(
                Seq::new(ls@.len(), |q: int| ls@[q]@),
            ),
            None => sp_locations(jv_seq(items@), i as int) is None,
        },
    decreases items@.len() - i,
{
    proof {
        crate::json::lemma_jv_seq(items@);
    }
    if i >= items.len() {
        let ls: Vec<Location> = Vec::new();
        proof {
            assert(Seq::new(ls@.len(), |q: int| ls@[q]@) =~= Seq::<LocationV>::empty());
        }
        return Some(ls);
    }
    match e_location(&items[i]) {
        Some(l) => match e_locations(items, i + 1) {
            Some(rest) => {
                let ghost old_rest = rest@;
                let mut ls = rest;
                ls.insert(0, l);
                proof {
                    assert(ls@[0] == l);
                    assert(ls@.subrange(1, ls@.len() as int) =~= old_rest);
                    assert(Seq::new(ls@.len(), |q: int| ls@[q]@) =~= seq![l@] + Seq::new(
                        old_rest.len(),
                        |q: int| old_rest[q]@,
                    ));
                }
                Some(ls)
            },
            None => None,
        },
        None => None,
    }
}

fn e_path(items: &Vec<Json>, i: usize) -> (r: Option<Vec<String>>)
    requires
        i <= items@.len(),
    ensures
        match r {
            Some(ss) => sp_path(jv_seq(items@), i as int) == Some(
                Seq::new(ss@.len(), |q: int| ss@[q]@),
            ),
            None => sp_path(jv_seq(items@), i as int) is None,
        },
    decreases items@.len() - i,
{
    proof {
        crate::json::lemma_jv_seq(items@);
    }
    if i >= items.len() {
        let ss: Vec<String> = Vec::new();
        proof {
            assert(Seq::new(ss@.len(), |q: int| ss@[q]@) =~= Seq::<Seq<char>>::empty());
        }
        return Some(ss);
    }
    match &items[i] {
        Json::Str(s) => match e_path(items, i + 1) {
            Some(rest) => {
                let ghost old_rest = rest@;
                let mut ss = rest;
                ss.insert(0, s.clone());
                proof {
                    assert(ss@[0]@ == s@);
                    assert(ss@.subrange(1, ss@.len() as int) =~= old_rest);
                    assert(Seq::new(ss@.len(), |q: int| ss@[q]@) =~= seq![s@] + Seq::new(
                        old_rest.len(),
                        |q: int| old_rest[q]@,
                    ));
                }
                Some(ss)
            },
            None => None,
        },
        _ => None,
    }
}

fn e_api_error(j: &Json) -> (r: Option<ApiError>)
    ensures
        match r {
            Some(e) => sp_api_error(j@) == Some(e@),
            None => sp_api_error(j@) is None,
        },
{
    let m: String = match j.get("message") {
        Some(Json::Str(m)) => m.clone(),
        _ => {
            return None;
        },
    };
    let locations: Option<Vec<Location>> = match j.get("locations") {
        None => None,
        Some(Json::Null) => None,
        Some(Json::Arr(ls)) => match e_locations(ls, 0) {
            Some(x) => Some(x),
            None => {
                return None;
            },
        },
        Some(_) => {
            return None;
        },
    };
    let path: Option<Vec<String>> = match j.get("path") {
        None => None,
        Some(Json::Null) => None,
        Some(Json::Arr(ss)) => match e_path(ss, 0) {
            Some(x) => Some(x),
            None => {
                return None;
            },
        },
        Some(_) => {
            return None;
        },
    };
    Some(ApiError { message: m, locations, path })
}

fn e_errors_list(items: &Vec<Json>, i: usize) -> (r: Option<Vec<ApiError>>)
    requires
        i <= items@.len(),
    ensures
        match r {
            Some(es) => sp_errors_list(jv_seq(items@), i as int) == Some(errs_view(es@)),
            None => sp_errors_list(jv_seq(items@), i as int) is None,
        },
    decreases items@.len() - i,
{
    proof {
        crate::json::lemma_jv_seq(items@);
    }
    if i >= items.len() {
        let es: Vec<ApiError> = Vec::new();
        proof {
            assert(errs_view(es@) =~= Seq::<ApiErrorV>::empty());
        }
        return Some(es);
    }
    match e_api_error(&items[i]) {
        Some(e) => match e_errors_list(items, i + 1) {
            Some(rest) => {
                let ghost old_rest = rest@;
                let ghost ev = e@;
                let mut es = rest;
                es.insert(0, e);
                proof {
                    assert(es@[0]@ == ev);
                    assert(es@.subrange(1, es@.len() as int) =~= old_rest);
                    assert(errs_view(es@) =~= seq![ev] + errs_view(old_rest));
                }
                Some(es)
            },
            None => None,
        },
        None => None,
    }
}

#[verifier::loop_isolation(false)]
fn e_envelope(j: Json) -> (r: Option<Envelope>)
    ensures
        match r {
            Some(env) => sp_envelope(jv(j)) == Some(env@),
            None => sp_envelope(jv(j)) is None,
        },
{
    let mut pairs: Vec<(String, Json)> = match j {
        Json::Obj(ps) => ps,
        _ => {
            return None;
        },
    };
    let ghost full = jv_pairs(pairs@);
    let mut cur_data: Option<Json> = None;
    let mut cur_errors: Option<Json> = None;
    proof {
        reveal_strlit("data");
        reveal_strlit("errors");
    }
    while pairs.len() > 0
        invariant
            obj_lookup(full, "data"@) == (match obj_lookup(jv_pairs(pairs@), "data"@) {
                Some(x) => Some(x),
                None => opt_jv(cur_data),
            }),
            obj_lookup(full, "errors"@) == (match obj_lookup(jv_pairs(pairs@), "errors"@) {
                Some(x) => Some(x),
                None => opt_jv(cur_errors),
            }),
        decreases pairs.len(),
    {
        let ghost prev = pairs@;
        let (k, v) = match pairs.pop() {
            Some(p) => p,
            None => {
                proof {
                    assert(false);
                }
                return None;
            },
        };
        proof {
            reveal_strlit("data");
            reveal_strlit("errors");
            assert("data"@.len() == 4);
            assert("errors"@.len() == 6);
            assert("data"@ != "errors"@);
            crate::json::lemma_jv_pairs(prev);
            lemma_jv_pairs_drop_last(prev);
            assert(jv_pairs(prev) =~= jv_pairs(pairs@).push((k@, jv(v))));
            lemma_obj_lookup_push(jv_pairs(pairs@), (k@, jv(v)), "data"@);
            lemma_obj_lookup_push(jv_pairs(pairs@), (k@, jv(v)), "errors"@);
        }
        if str_eq(k.as_str(), "data") {
            cur_data = Some(v);
        } else if str_eq(k.as_str(), "errors") {
            cur_errors = Some(v);
        }
    }
    proof {
        assert(jv_pairs(pairs@) =~= Seq::<(Seq<char>, JsonV)>::empty());
        assert(obj_lookup(full, "data"@) == opt_jv(cur_data));
        assert(obj_lookup(full, "errors"@) == opt_jv(cur_errors));
    }
    let data: Option<Json> = match cur_data {
        None => None,
        Some(Json::Null) => None,
        Some(d) => Some(d),
    };
    let errors: Option<Vec<ApiError>> = match cur_errors {
        None => None,
        Some(Json::Null) => None,
        Some(Json::Arr(items)) => match e_errors_list(&items, 0) {
            Some(es) => Some(es),
            None => {
                return None;
            },
        },
        Some(_) => {
            return None;
        },
    };
    Some(Envelope { data, errors })
}

/// Decodes a response body into its envelope.  The body must be valid
/// JSON shaped as an envelope; anything else is a decode error carrying
/// the raw text.
pub fn decode_envelope(body: &str) -> (r: Result<Envelope, ClientError>)
    ensures
        match r {
            Ok(env) => (match p_doc(body@) {
                Some(j) => sp_envelope(j) == Some(env@),
                None => false,
            }),
            Err(e) => e matches ClientError::Decode(t) && t@ == body@ && (match p_doc(body@) {
                Some(j) => sp_envelope(j) is None,
                None => true,
            }),
        },
{
    match parse_document(body) {
        Some(j) => match e_envelope(j) {
            Some(env) => Ok(env),
            None => Err(ClientError::Decode(body.to_owned())),
        },
        None => Err(ClientError::Decode(body.to_owned())),
    }
}

/// Classifies a decoded envelope.  A non-empty error list fails with all
/// messages joined by `", "` in their original order; otherwise the call
/// succeeds with the data, or with JSON `null` when no data came back.
pub fn envelope_to_result(env: Envelope) -> (r: Result<Json, ClientError>)
    ensures
        match env@.errors {
            Some(es) => if es.len() > 0 {
                r matches Err(ClientError::Api(m)) && m@ == joined(es)
            } else {
                r matches Ok(d) && jv(d) == (match env@.data {
                    Some(x) => x,
                    None => JsonV::Null,
                })
            },
            None => r matches Ok(d) && jv(d) == (match env@.data {
                Some(x) => x,
                None => JsonV::Null,
            }),
        },
{
    match env.errors {
        Some(errs) if errs.len() > 0 => {
            let ghost es = errs_view(errs@);
            let n = errs.len();
            let mut msg: String = errs[0].message.clone();
            proof {
                assert(es.take(1).len() == 1);
                assert(es.take(1)[0] == es[0]);
                assert(msg@ == joined(es.take(1)));
            }
            let mut i: usize = 1;
            while i < n
                invariant
                    1 <= i <= n,
                    n == errs@.len(),
                    es == errs_view(errs@),
                    es.len() == n,
                    msg@ == joined(es.take(i as int)),
                decreases n - i,
            {
                msg.append(", ");
                msg.append(errs[i].message.as_str());
                proof {
                    assert(es.take(i as int + 1).drop_last() =~= es.take(i as int));
                    assert(es.take(i as int + 1).last() == es[i as int]);
                    assert(es[i as int].message == errs@[i as int]@.message);
                }
                i = i + 1;
            }
            proof {
                assert(es.take(n as int) =~= es);
            }
            Err(ClientError::Api(msg))
        },
        _ => match env.data {
            Some(d) => Ok(d),
            None => Ok(Json::Null),
        },
    }
}

/// Turns one response body into the outcome of the call: decode, then
/// classify.  Exactly one of three things happens: a malformed body is a
/// decode error; a well-formed body with reported errors is an API error
/// carrying the joined messages; any other well-formed body succeeds
/// with its data, or with JSON `null` when none came back.
pub fn decode_response(body: &str) -> (r: Result<Json, ClientError>)
    ensures
        match p_doc(body@) {
            None => r matches Err(ClientError::Decode(t)) && t@ == body@,
            Some(j) => match sp_envelope(j) {
                None => r matches Err(ClientError::Decode(t)) && t@ == body@,
                Some(env) => match env.errors {
                    Some(es) => if es.len() > 0 {
                        r matches Err(ClientError::Api(m)) && m@ == joined(es)
                    } else {
                        r matches Ok(d) && jv(d) == (match env.data {
                            Some(x) => x,
                            None => JsonV::Null,
                        })
                    },
                    None => r matches Ok(d) && jv(d) == (match env.data {
                        Some(x) => x,
                        None => JsonV::Null,
                    }),
                },
            },
        },
{
    match decode_envelope(body) {
        Ok(env) => envelope_to_result(env),
        Err(e) => Err(e),
    }
}

} // verus!
