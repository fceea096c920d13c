//! A small file-serving library: the decision and encoding logic behind an
//! HTTP server that exposes one directory through a listing route and a
//! download route.
//!
//! Everything here works on plain values (bytes, strings, integers); the
//! binary around the library performs the actual filesystem and network
//! calls and hands their results in.

use vstd::prelude::*;

pub mod config;
pub mod entries;
pub mod json;
pub mod request;
pub mod response;

pub use entries::BlobDesc;
pub use entries::RawEntry;

use crate::entries::blobs_of;
use crate::json::json_of_list;
use crate::request::file_route;
use crate::request::find_name;
use crate::request::get_token;
use crate::request::has_space;
use crate::request::joined;
use crate::request::list_route;
use crate::request::method_of;
use crate::request::path_of;
use crate::request::query_of;

verus! {

/// The handler state: the one immutable base directory path (as raw path
/// bytes), fixed at startup and shared by every request.
#[derive(Clone, Debug)]
pub struct BlobResource {
    pub root_path: Vec<u8>,
}

/// Why a listing request fails as a whole: the base directory could not
/// be enumerated at all.
#[derive(Debug)]
pub enum ListError {
    DirUnreadable,
}

/// What the server should do with one request, as decided from the
/// request bytes alone.
#[derive(Debug)]
pub enum Action {
    /// `GET /list`: enumerate the base directory and return the listing.
    List,
    /// `GET /file` with a `name` parameter: stream the file at `path`.
    ServeFile { path: Vec<u8> },
    /// Any other method or route.
    NotFound,
    /// A request line with no space, or `/file` without a `name`.
    BadRequest,
}

impl BlobResource {
    /// Builds the resource serving `root_path`.
    pub fn new(root_path: Vec<u8>) -> (r: BlobResource)
        ensures
            r.root_path@ == root_path@,
    {
        BlobResource { root_path }
    }

    /// The listing route. `dir` is the outcome of enumerating the base
    /// directory: `None` when the directory could not be opened at all
    /// (the request fails as a whole), otherwise one record per child.
    /// On success the response body is the JSON array of the qualifying
    /// entries' descriptors.
    pub fn list(&self, dir: Option<Vec<RawEntry>>) -> (r: Result<String, ListError>)
        ensures
            r is Ok <==> dir is Some,
            dir is Some ==> r is Ok && r->Ok_0@ == json_of_list(blobs_of(dir->Some_0@)),
            dir is None ==> r is Err && r->Err_0 == ListError::DirUnreadable,
    {
        match dir {
            None => Err(ListError::DirUnreadable),
            Some(entries) => {
                let blobs = self.list_blobs(entries);
                Ok(crate::json::render_list(&blobs))
            },
        }
    }

    /// Decides what one request asks for. `head` is the raw bytes read
    /// from the connection, beginning with the request line. A request
    /// line without a space is malformed; a method other than `GET` or a
    /// path other than the two routes is not found; `/file` resolves its
    /// `name` parameter against the base directory, and is malformed
    /// without one.
    #[verifier::rlimit(80)]
    pub fn handle_request(&self, head: &Vec<u8>) -> (r: Action)
        ensures
            !has_space(head@) ==> r is BadRequest,
            has_space(head@) && method_of(head@) != get_token() ==> r is NotFound,
            has_space(head@) && method_of(head@) == get_token() && path_of(head@)
                == list_route() ==> r is List,
            has_space(head@) && method_of(head@) == get_token() && path_of(head@)
                == file_route() ==> match find_name(query_of(head@)) {
                Some(nm) => r matches Action::ServeFile { path } && path@ == joined(
                    self.root_path@,
                    nm,
                ),
                None => r is BadRequest,
            },
            has_space(head@) && method_of(head@) == get_token() && path_of(head@)
                != list_route() && path_of(head@) != file_route() ==> r is NotFound,
    {
        let n: usize = head.len();
        proof {
            assert(head@.subrange(0, n as int) =~= head@);
        }
        let line_end: usize = match request::find2(head, 0, n, 0x0d, 0x0a) {
            Some(i) => i,
            None => n,
        };
        proof {
            request::lemma_first2(head@, 0x0d, 0x0a);
            assert(request::line_of(head@) =~= head@.subrange(0, line_end as int));
            request::lemma_first2(request::line_of(head@), 0x20, 0x20);
        }
        let sp1: usize = match request::find2(head, 0, line_end, 0x20, 0x20) {
            Some(i) => i,
            None => {
                return Action::BadRequest;
            },
        };
        let is_get: bool = sp1 == 3 && head[0] == 0x47 && head[1] == 0x45 && head[2]
            == 0x54;
        proof {
            assert(method_of(head@) =~= head@.subrange(0, sp1 as int));
            if is_get {
                assert(method_of(head@) =~= get_token());
            } else {
                if method_of(head@) == get_token() {
                    assert(method_of(head@).len() == 3);
                    assert(head@[0] == 0x47 && head@[1] == 0x45 && head@[2] == 0x54);
                    assert(false);
                }
            }
        }
        if !is_get {
            return Action::NotFound;
        }
        let rest_start: usize = sp1 + 1;
        proof {
            assert(request::rest_of(head@) =~= head@.subrange(
                rest_start as int,
                line_end as int,
            ));
            request::lemma_first2(request::rest_of(head@), 0x20, 0x20);
        }
        let target_end: usize = match request::find2(head, rest_start, line_end, 0x20, 0x20) {
            Some(i) => i,
            None => line_end,
        };
        proof {
            assert(request::target_of(head@) =~= head@.subrange(
                rest_start as int,
                target_end as int,
            ));
            request::lemma_first2(request::target_of(head@), 0x3f, 0x3f);
        }
        let qpos = request::find2(head, rest_start, target_end, 0x3f, 0x3f);
        let path_end: usize = match qpos {
            Some(i) => i,
            None => target_end,
        };
        let q_start: usize = match qpos {
            Some(i) => i + 1,
            None => target_end,
        };
        proof {
            assert(path_of(head@) =~= head@.subrange(rest_start as int, path_end as int));
            match request::first2(request::target_of(head@), 0x3f, 0x3f) {
                Some(i) => {
                    assert(query_of(head@) =~= head@.subrange(
                        q_start as int,
                        target_end as int,
                    ));
                },
                None => {
                    assert(query_of(head@) =~= head@.subrange(
                        q_start as int,
                        target_end as int,
                    ));
                },
            }
        }
        let plen: usize = path_end - rest_start;
        let is_list: bool = plen == 5 && head[rest_start] == 0x2f && head[rest_start + 1]
            == 0x6c && head[rest_start + 2] == 0x69 && head[rest_start + 3] == 0x73
            && head[rest_start + 4] == 0x74;
        let is_file: bool = plen == 5 && head[rest_start] == 0x2f && head[rest_start + 1]
            == 0x66 && head[rest_start + 2] == 0x69 && head[rest_start + 3] == 0x6c
            && head[rest_start + 4] == 0x65;
        proof {
            let p = path_of(head@);
            if is_list {
                assert(p =~= list_route());
            } else {
                if p == list_route() {
                    assert(p.len() == 5);
                    assert(p[0] == 0x2f && p[1] == 0x6c && p[2] == 0x69 && p[3] == 0x73
                        && p[4] == 0x74);
                    assert(head@[rest_start as int] == 0x2f);
                    assert(false);
                }
            }
            if is_file {
                assert(p =~= file_route());
            } else {
                if p == file_route() {
                    assert(p.len() == 5);
                    assert(p[0] == 0x2f && p[1] == 0x66 && p[2] == 0x69 && p[3] == 0x6c
                        && p[4] == 0x65);
                    assert(false);
                }
            }
        }
        if is_list {
            return Action::List;
        }
        if is_file {
            match request::find_name_range(head, q_start, target_end) {
                Some(nm) => {
                    let path = request::join_path(&self.root_path, &nm);
                    return Action::ServeFile { path };
                },
                None => {
                    return Action::BadRequest;
                },
            }
        }
        Action::NotFound
    }
}

} // verus!
