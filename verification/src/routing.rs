//! Addresses: the redirect of paths with a trailing slash under a base path,
//! the base path the API is nested under, and the client's absolute URLs.

use vstd::prelude::*;
use crate::text::{concat, str_eq};

verus! {

/// A path without its trailing slashes (`str::trim_end_matches('/')`).
pub open spec fn trim_trailing_slashes(s: Seq<char>) -> Seq<char>
    decreases s.len(),
{
    if s.len() > 0 && s.last() == '/' {
        trim_trailing_slashes(s.drop_last())
    } else {
        s
    }
}

/// Where a request for `path` (with the given query) is permanently
/// redirected: paths longer than `/` that end in a slash go to the path
/// without its trailing slashes, the query kept when it is not empty.
pub open spec fn redirect_location(path: Seq<char>, query: Option<Seq<char>>) -> Option<Seq<char>> {
    if path.len() > 1 && path.last() == '/' {
        let target = trim_trailing_slashes(path);
        Some(
            match query {
                Some(q) => if q.len() > 0 { target + seq!['?'] + q } else { target },
                None => target,
            },
        )
    } else {
        None
    }
}

proof fn lemma_trim_trailing(s: Seq<char>, k: int)
    requires
        0 <= k <= s.len(),
        forall|j: int| k <= j < s.len() ==> s[j] == '/',
        k == 0 || s[k - 1] != '/',
    ensures
        trim_trailing_slashes(s) == s.subrange(0, k),
    decreases s.len(),
{
    if k == s.len() {
        assert(s.subrange(0, k) =~= s);
    } else {
        let t = s.drop_last();
        assert forall|j: int| k <= j < t.len() implies t[j] == '/' by {
            assert(t[j] == s[j]);
        }
        if k > 0 {
            assert(t[k - 1] == s[k - 1]);
        }
        lemma_trim_trailing(t, k);
        assert(t.subrange(0, k) =~= s.subrange(0, k));
    }
}

proof fn lemma_trimmed_no_trailing(s: Seq<char>)
    ensures
        trim_trailing_slashes(s).len() == 0 || trim_trailing_slashes(s).last() != '/',
    decreases s.len(),
{
    if s.len() > 0 && s.last() == '/' {
        lemma_trimmed_no_trailing(s.drop_last());
    }
}

/// The redirect for a request, if any.
pub fn trailing_slash_redirect(path: &str, query: Option<&str>) -> (r: Option<String>)
    ensures
        r.deep_view() == redirect_location(path@, match query { Some(q) => Some(q@), None => None }),
{
    let n = path.unicode_len();
    if n > 1 && path.get_char(n - 1) == '/' {
        let mut k: usize = n;
        while k > 0 && path.get_char(k - 1) == '/'
            invariant
                n == path@.len(),
                k <= n,
                forall|j: int| k <= j < n ==> path@[j] == '/',
            decreases k,
        {
            k = k - 1;
        }
        proof {
            lemma_trim_trailing(path@, k as int);
        }
        let target = path.substring_char(0, k);
        match query {
            Some(q) => {
                if !q.is_empty() {
                    let sep = "?";
                    proof {
                        reveal_strlit("?");
                        assert(sep@ =~= seq!['?']);
                    }
                    Some(concat(concat(target, sep).as_str(), q))
                } else {
                    Some(target.to_owned())
                }
            },
            None => Some(target.to_owned()),
        }
    } else {
        None
    }
}

/// A redirect target is never itself redirected: requesting the location a
/// trailing-slash path is sent to (the path part, without the query) gives no
/// further redirect.
pub proof fn law_redirect_target_is_final(path: Seq<char>, query: Option<Seq<char>>)
    ensures
        redirect_location(trim_trailing_slashes(path), query) is None,
{
    lemma_trimmed_no_trailing(path);
}

/// The base path the whole application is nested under: a configured path
/// other than `/`.
pub fn nested_base_path(base: &Option<String>) -> (r: Option<String>)
    ensures
        r.deep_view() == match base.deep_view() {
            Some(p) => if p == seq!['/'] { None } else { Some(p) },
            None => None,
        },
{
    match base {
        Some(p) => {
            let slash = "/";
            proof {
                reveal_strlit("/");
                assert(slash@ =~= seq!['/']);
            }
            if str_eq(p.as_str(), slash) {
                None
            } else {
                Some(p.clone())
            }
        },
        None => None,
    }
}

/// `"http://10.0.2.2:3000"`: the backend as seen from the Android emulator
/// (its alias for the host's loopback).
pub open spec fn api_base_spec() -> Seq<char> {
    seq!['h', 't', 't', 'p', ':', '/', '/', '1', '0', '.', '0', '.', '2', '.', '2', ':', '3', '0', '0', '0']
}

/// The backend address the client talks to.
pub fn api_base() -> (r: String)
    ensures
        r@ == api_base_spec(),
{
    let r = "http://10.0.2.2:3000".to_owned();
    proof {
        reveal_strlit("http://10.0.2.2:3000");
        assert(r@ =~= api_base_spec());
    }
    r
}

/// Recipe images arrive as server-relative URLs (`/api/images/...`); the
/// client needs them absolute against the backend address.
pub fn absolutize(url: &str) -> (r: String)
    ensures
        r@ == if url@.len() > 0 && url@[0] == '/' { api_base_spec() + url@ } else { url@ },
{
    if url.unicode_len() > 0 && url.get_char(0) == '/' {
        concat(api_base().as_str(), url)
    } else {
        url.to_owned()
    }
}

} // verus!
