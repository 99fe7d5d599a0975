//! Request routing and the handlers' decision logic.
//!
//! Three routes exist: the root greeting, an echo of any valid-text
//! body, and a query-by-id against the record store. The store call
//! itself happens outside the library; the query handler is split into
//! `plan_user` (decide, from the parameters and the handle, whether to
//! reject, fail unavailable, or look an id up) and `finish_user` (turn
//! the store's answer into a reply).

use vstd::prelude::*;
use vstd::slice::slice_to_vec;
use vstd::utf8::valid_utf8;

use crate::parse::{find_byte, spec_split};
use crate::store::{bytes_eq, DataHandle, Record};

verus! {

/// An HTTP-like response: a status code and a byte body.
#[derive(PartialEq, Eq, Debug)]
pub struct Response {
    pub status: u16,
    pub body: Vec<u8>,
}

#[derive(Clone, Copy, PartialEq, Eq, Structural, Debug)]
pub enum Method {
    Get,
    Post,
}

/// Where a request is dispatched.
#[derive(Clone, Copy, PartialEq, Eq, Structural, Debug)]
pub enum Route {
    /// `GET /`: the fixed greeting.
    Root,
    /// `POST /echo`: echo the body back.
    Echo,
    /// `GET /user`: query a record by id.
    User,
    /// Anything else.
    Unknown,
}

pub open spec fn root_path() -> Seq<u8> {
    seq![47u8]
}

pub open spec fn echo_path() -> Seq<u8> {
    seq![47u8, 101u8, 99u8, 104u8, 111u8]
}

pub open spec fn user_path() -> Seq<u8> {
    seq![47u8, 117u8, 115u8, 101u8, 114u8]
}

fn echo_path_x() -> (v: Vec<u8>)
    ensures
        v@ == echo_path(),
{
    let mut v: Vec<u8> = Vec::new();
    v.push(47);
    v.push(101);
    v.push(99);
    v.push(104);
    v.push(111);
    proof {
        assert(v@ =~= echo_path());
    }
    v
}

fn user_path_x() -> (v: Vec<u8>)
    ensures
        v@ == user_path(),
{
    let mut v: Vec<u8> = Vec::new();
    v.push(47);
    v.push(117);
    v.push(115);
    v.push(101);
    v.push(114);
    proof {
        assert(v@ =~= user_path());
    }
    v
}

/// Dispatch a method and path to a route.
pub fn route(m: Method, path: &[u8]) -> (r: Route)
    ensures
        r == Route::Root <==> (m == Method::Get && path@ == root_path()),
        r == Route::Echo <==> (m == Method::Post && path@ == echo_path()),
        r == Route::User <==> (m == Method::Get && path@ == user_path()),
{
    let mut root: Vec<u8> = Vec::new();
    root.push(47);
    proof {
        assert(root@ =~= root_path());
    }
    match m {
        Method::Get => {
            if bytes_eq(path, root.as_slice()) {
                Route::Root
            } else if bytes_eq(path, user_path_x().as_slice()) {
                Route::User
            } else {
                Route::Unknown
            }
        },
        Method::Post => {
            if bytes_eq(path, echo_path_x().as_slice()) {
                Route::Echo
            } else {
                Route::Unknown
            }
        },
    }
}

/// The greeting body of the root route: the text `Hello, world!` and a
/// newline.
pub open spec fn greeting_bytes() -> Seq<u8> {
    seq![
        72u8, 101u8, 108u8, 108u8, 111u8, 44u8, 32u8, 119u8, 111u8, 114u8, 108u8, 100u8, 33u8,
        10u8,
    ]
}

/// The root route: always succeeds with the fixed greeting.
pub fn greeting() -> (r: Response)
    ensures
        r.status == 200,
        r.body@ == greeting_bytes(),
{
    let mut v: Vec<u8> = Vec::new();
    v.push(72);
    v.push(101);
    v.push(108);
    v.push(108);
    v.push(111);
    v.push(44);
    v.push(32);
    v.push(119);
    v.push(111);
    v.push(114);
    v.push(108);
    v.push(100);
    v.push(33);
    v.push(10);
    proof {
        assert(v@ =~= greeting_bytes());
    }
    Response { status: 200, body: v }
}

/// Relies on std's `str::from_utf8`: it returns `Ok` exactly when the
/// bytes are valid UTF-8, the property `vstd::utf8::valid_utf8` states.
#[verifier::external_body]
fn utf8_valid(b: &[u8]) -> (r: bool)
    ensures
        r == valid_utf8(b@),
{
    core::str::from_utf8(b).is_ok()
}

/// The echo route: a valid-text body comes back unchanged with status
/// 200; anything else is a 400 with an empty body.
pub fn echo(body: &[u8]) -> (r: Response)
    ensures
        valid_utf8(body@) ==> r.status == 200 && r.body@ == body@,
        !valid_utf8(body@) ==> r.status == 400 && r.body@.len() == 0,
{
    if utf8_valid(body) {
        Response { status: 200, body: slice_to_vec(body) }
    } else {
        Response { status: 400, body: Vec::new() }
    }
}

/// Decoded request parameters: key-value pairs in query order.
pub struct Params {
    pub pairs: Vec<(Vec<u8>, Vec<u8>)>,
}

/// One `&`-separated piece as a key-value pair: split at the first
/// `=`; a piece without one is a key with an empty value.
pub open spec fn split_kv(p: Seq<u8>) -> (Seq<u8>, Seq<u8>) {
    let e = find_byte(p, 61);
    if !(0 <= e < p.len()) {
        (p, Seq::empty())
    } else {
        (p.subrange(0, e), p.subrange(e + 1, p.len() as int))
    }
}

/// The pairs a query string denotes.
pub open spec fn spec_pairs(q: Seq<u8>) -> Seq<(Seq<u8>, Seq<u8>)> {
    spec_split(q, 38).map_values(|p: Seq<u8>| split_kv(p))
}

/// The value under a key: the last pair with that key wins.
pub open spec fn spec_lookup(pairs: Seq<(Seq<u8>, Seq<u8>)>, k: Seq<u8>) -> Option<Seq<u8>>
    decreases pairs.len(),
{
    if pairs.len() == 0 {
        None
    } else if pairs.last().0 == k {
        Some(pairs.last().1)
    } else {
        spec_lookup(pairs.drop_last(), k)
    }
}

pub open spec fn params_view(p: &Params) -> Seq<(Seq<u8>, Seq<u8>)> {
    p.pairs@.map_values(|pr: (Vec<u8>, Vec<u8>)| (pr.0@, pr.1@))
}

impl Params {
    /// Decode a query string: pieces between `&`s, each split at its
    /// first `=`. No unescaping is done; a repeated key keeps every
    /// pair, and lookups take the last.
    pub fn parse(q: &[u8]) -> (r: Params)
        ensures
            params_view(&r) == spec_pairs(q@),
    {
        let pieces = crate::parse::split_bytes(q, 38);
        let ghost pieces_view = pieces@.map_values(|x: &[u8]| x@);
        let mut pairs: Vec<(Vec<u8>, Vec<u8>)> = Vec::new();
        let mut i: usize = 0;
        while i < pieces.len()
            invariant
                i <= pieces@.len(),
                pieces_view == pieces@.map_values(|x: &[u8]| x@),
                pieces_view == spec_split(q@, 38),
                pairs@.len() == i,
                forall|j: int|
                    0 <= j < i ==> ((#[trigger] pairs@[j]).0@, pairs@[j].1@) == split_kv(
                        pieces_view[j],
                    ),
            decreases pieces@.len() - i,
        {
            let piece = pieces[i];
            proof {
                assert(piece@ == pieces_view[i as int]);
            }
            let pair = kv_of(piece);
            pairs.push(pair);
            i = i + 1;
        }
        proof {
            assert(params_view(&Params { pairs }) =~= spec_pairs(q@));
        }
        Params { pairs }
    }

    /// Look a key up; the last pair with that key wins.
    pub fn get(&self, k: &[u8]) -> (r: Option<&Vec<u8>>)
        ensures
            match r {
                Some(v) => spec_lookup(params_view(self), k@) == Some(v@),
                None => spec_lookup(params_view(self), k@) is None,
            },
    {
        let ghost pv = params_view(self);
        let mut i: usize = self.pairs.len();
        proof {
            assert(pv.subrange(0, pv.len() as int) =~= pv);
        }
        while i > 0
            invariant
                i <= self.pairs@.len(),
                pv == params_view(self),
                spec_lookup(pv, k@) == spec_lookup(pv.subrange(0, i as int), k@),
            decreases i,
        {
            i = i - 1;
            proof {
                assert(pv.subrange(0, i as int + 1).drop_last() =~= pv.subrange(0, i as int));
                assert(pv.subrange(0, i as int + 1).last() == pv[i as int]);
                assert(pv[i as int] == (self.pairs@[i as int].0@, self.pairs@[i as int].1@));
            }
            if bytes_eq(self.pairs[i].0.as_slice(), k) {
                return Some(&self.pairs[i].1);
            }
        }
        None
    }
}

fn kv_of(piece: &[u8]) -> (r: (Vec<u8>, Vec<u8>))
    ensures
        (r.0@, r.1@) == split_kv(piece@),
{
    proof {
        crate::parse::lemma_find_byte(piece@, 61);
    }
    match crate::parse::find_byte_x(piece, 61) {
        None => (slice_to_vec(piece), Vec::new()),
        Some(e) => {
            let n = piece.len();
            assert(e < n);
            (slice_to_vec(&piece[0..e]), slice_to_vec(&piece[e + 1..n]))
        },
    }
}

/// The `id` query key.
pub open spec fn id_key() -> Seq<u8> {
    seq![105u8, 100u8]
}

/// What the query-by-id handler decides before any store call.
#[derive(PartialEq, Eq, Debug)]
pub enum UserPlan {
    /// No `id` parameter: reject the request.
    BadRequest,
    /// The data handle captured a construction failure.
    Unavailable,
    /// Look this id up in the store.
    Lookup(Vec<u8>),
}

/// The query-by-id handler's reply.
#[derive(PartialEq, Eq, Debug)]
pub enum UserReply {
    /// The record to serialize, with status 200.
    Found(Record),
    /// No record has the id: 404, empty body.
    NotFound,
    /// No `id` parameter: 400, empty body.
    MissingId,
    /// The store handle is unavailable: 503, empty body.
    Unavailable,
}

/// Decide a query-by-id request: a missing `id` parameter is rejected
/// before the handle is consulted; an unavailable handle fails; and
/// otherwise the id's value is handed out for the store lookup.
pub fn plan_user(handle: &DataHandle, params: &Params) -> (r: UserPlan)
    ensures
        match spec_lookup(params_view(params), id_key()) {
            None => r == UserPlan::BadRequest,
            Some(v) => if handle.available {
                r matches UserPlan::Lookup(x) && x@ == v
            } else {
                r == UserPlan::Unavailable
            },
        },
{
    let mut key: Vec<u8> = Vec::new();
    key.push(105);
    key.push(100);
    proof {
        assert(key@ =~= id_key());
    }
    match params.get(key.as_slice()) {
        None => UserPlan::BadRequest,
        Some(v) => {
            if handle.available {
                UserPlan::Lookup(slice_to_vec(v.as_slice()))
            } else {
                UserPlan::Unavailable
            }
        },
    }
}

/// Turn the store's answer into the reply: the record found, or an
/// explicit not-found that is distinct from every error.
pub fn finish_user(answer: Option<Record>) -> (r: UserReply)
    ensures
        match answer {
            Some(rec) => r == UserReply::Found(rec),
            None => r == UserReply::NotFound,
        },
{
    match answer {
        Some(rec) => UserReply::Found(rec),
        None => UserReply::NotFound,
    }
}

/// The server's configuration: where to listen, and the shared data
/// access handle every request handler reads.
pub struct ServerConfig {
    pub host: String,
    pub port: String,
    pub handle: DataHandle,
}

impl ServerConfig {
    /// A configuration for the given listening address.
    pub fn new(host: String, port: String, handle: DataHandle) -> (r: ServerConfig)
        ensures
            r.host@ == host@,
            r.port@ == port@,
            r.handle == handle,
    {
        ServerConfig { host, port, handle }
    }

    /// The default listening address, `127.0.0.1:3000`.
    pub fn with_default_addr(handle: DataHandle) -> (r: ServerConfig)
        ensures
            r.host@ == "127.0.0.1"@,
            r.port@ == "3000"@,
            r.handle == handle,
    {
        ServerConfig { host: "127.0.0.1".to_owned(), port: "3000".to_owned(), handle }
    }
}

/// The status code of a query-by-id reply.
pub fn reply_status(r: &UserReply) -> (s: u16)
    ensures
        r is Found ==> s == 200,
        r is NotFound ==> s == 404,
        r is MissingId ==> s == 400,
        r is Unavailable ==> s == 503,
{
    match r {
        UserReply::Found(_) => 200,
        UserReply::NotFound => 404,
        UserReply::MissingId => 400,
        UserReply::Unavailable => 503,
    }
}

} // verus!
