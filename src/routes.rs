//! Decoding of the control server's requests into registry operations.
use crate::id::{id_from_str, ulid_value};
use vstd::prelude::*;

verus! {

#[derive(Clone, Copy, Debug, PartialEq, Eq, Structural)]
pub enum Method {
    Get,
    Post,
    Delete,
    Other,
}

/// What a request asks of the control server.
#[derive(Clone, Copy, Debug, PartialEq, Eq, Structural)]
pub enum Route {
    /// `GET /`: the full registry projection.
    List,
    /// `POST /bundle/{id}`: store the body as the archive of `id`, then deploy it.
    Upload(u128),
    /// `DELETE /bundle/{id}`: drop the archive and the registry entry of `id`.
    Remove(u128),
    /// Anything else.
    NotFound,
}

pub open spec fn bundle_prefix() -> Seq<char> {
    "/bundle/"@
}

/// The identifier named by a `/bundle/{id}` path, if the path is one.
pub open spec fn bundle_path_id(url: Seq<char>) -> Option<u128> {
    if url.len() >= 8 && url.subrange(0, 8) == bundle_prefix() {
        ulid_value(url.subrange(8, url.len() as int))
    } else {
        None
    }
}

pub open spec fn spec_route(method: Method, url: Seq<char>) -> Route {
    if method == Method::Get && url == "/"@ {
        Route::List
    } else {
        match bundle_path_id(url) {
            Some(id) => match method {
                Method::Post => Route::Upload(id),
                Method::Delete => Route::Remove(id),
                _ => Route::NotFound,
            },
            None => Route::NotFound,
        }
    }
}

fn starts_with_bundle_prefix(url: &str) -> (r: bool)
    ensures
        r == (url@.len() >= 8 && url@.subrange(0, 8) == bundle_prefix()),
{
    proof {
        reveal_strlit("/bundle/");
    }
    let n = url.unicode_len();
    if n < 8 {
        return false;
    }
    let p = "/bundle/";
    let mut i: usize = 0;
    while i < 8
        invariant
            n == url@.len() >= 8,
            p@ == bundle_prefix(),
            p@.len() == 8,
            i <= 8,
            forall|j: int| 0 <= j < i ==> url@[j] == p@[j],
        decreases 8 - i,
    {
        if url.get_char(i) != p.get_char(i) {
            return false;
        }
        i += 1;
    }
    assert(url@.subrange(0, 8) =~= bundle_prefix());
    true
}

/// Decodes a request line into the operation it asks for.
pub fn route(method: Method, url: &str) -> (r: Route)
    ensures
        r == spec_route(method, url@),
{
    proof {
        reveal_strlit("/");
    }
    if method == Method::Get && url.unicode_len() == 1 && url.get_char(0) == '/' {
        assert(url@ =~= "/"@);
        return Route::List;
    }
    if !starts_with_bundle_prefix(url) {
        return Route::NotFound;
    }
    let n = url.unicode_len();
    match id_from_str(url.substring_char(8, n)) {
        Some(id) => match method {
            Method::Post => Route::Upload(id),
            Method::Delete => Route::Remove(id),
            _ => Route::NotFound,
        },
        None => Route::NotFound,
    }
}

} // verus!
