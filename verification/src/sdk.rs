use vstd::prelude::*;

use crate::text::{
    concat2, concat3, decimal, decimal_text, ends_with, starts_with, str_ends_with_char,
    str_starts_with_char,
};

verus! {

/// The body of every API response: the data, or an error message.
#[derive(Debug)]
pub struct Response<T> {
    pub data: Option<T>,
    pub error: Option<String>,
}

/// `mount` with a leading and a trailing `/` added where missing.
pub open spec fn mount_prefix(mount: Seq<char>) -> Seq<char> {
    let a = if starts_with(mount, seq!['/']) {
        mount
    } else {
        seq!['/'] + mount
    };
    if ends_with(a, seq!['/']) {
        a
    } else {
        a.push('/')
    }
}

/// The prefix of a mount always starts and ends with `/` and holds the
/// mount between them: at most one `/` is added in front and one behind, a
/// `/` the mount starts with is not doubled, and neither is one it ends
/// with.
pub proof fn law_mount_prefix_is_wrapped_in_slashes(mount: Seq<char>)
    ensures
        mount_prefix(mount).len() > 0,
        mount_prefix(mount)[0] == '/',
        mount_prefix(mount).last() == '/',
        starts_with(mount_prefix(mount), seq!['/']),
        ends_with(mount_prefix(mount), seq!['/']),
        exists|front: Seq<char>, back: Seq<char>|
            (front == Seq::<char>::empty() || front == seq!['/']) && (back == Seq::<char>::empty()
                || back == seq!['/']) && mount_prefix(mount) == front + mount + back,
        mount.len() > 0 && mount[0] == '/' ==> starts_with(mount_prefix(mount), mount),
        mount.len() > 0 && mount.last() == '/' ==> ends_with(mount_prefix(mount), mount),
{
    let a = if starts_with(mount, seq!['/']) {
        mount
    } else {
        seq!['/'] + mount
    };
    let front = if starts_with(mount, seq!['/']) {
        Seq::<char>::empty()
    } else {
        seq!['/']
    };
    assert(a =~= front + mount);
    if mount.len() > 0 && mount[0] == '/' {
        assert(mount.take(1) =~= seq!['/']);
    }
    assert(a.len() > 0);
    assert(a[0] == '/') by {
        if starts_with(mount, seq!['/']) {
            assert(mount.take(1)[0] == mount[0]);
        }
    }
    if ends_with(a, seq!['/']) {
        assert(a.skip(a.len() - 1)[0] == a.last());
        assert(mount_prefix(mount) =~= front + mount + Seq::<char>::empty());
        if mount.len() > 0 && mount.last() == '/' {
            assert(a.skip(a.len() - mount.len()) =~= mount);
        }
    } else {
        assert(mount_prefix(mount) =~= front + mount + seq!['/']);
        if mount.len() > 0 && mount.last() == '/' {
            assert(a.last() == mount.last());
            assert(a.skip(a.len() - 1) =~= seq!['/']);
        }
    }
    let p = mount_prefix(mount);
    assert(p.skip(p.len() - 1) =~= seq![p.last()]);
    assert(p.take(1) =~= seq![p[0]]);
    if mount.len() > 0 && mount[0] == '/' {
        assert(p.take(mount.len() as int) =~= mount);
    }
}

/// The API path of `path` below the mount `mount`.
pub fn get_mount_path(mount: &str, path: &str) -> (r: String)
    ensures
        r@ == mount_prefix(mount@) + path@,
        r@.len() > path@.len(),
        r@[0] == '/',
        r@[r@.len() - path@.len() - 1] == '/',
        r@.skip(r@.len() - path@.len()) == path@,
{
    proof {
        law_mount_prefix_is_wrapped_in_slashes(mount@);
        let p = mount_prefix(mount@);
        assert((p + path@).skip(p.len() as int) =~= path@);
    }
    let mut m = if str_starts_with_char(mount, '/') {
        concat2(mount, "")
    } else {
        concat2("/", mount)
    };
    proof {
        reveal_strlit("");
        reveal_strlit("/");
        assert("/"@ =~= seq!['/']);
        assert(mount@ + ""@ =~= mount@);
    }
    if !str_ends_with_char(m.as_str(), '/') {
        m = concat2(m.as_str(), "/");
        assert(m@ =~= mount_prefix(mount@));
    }
    concat2(m.as_str(), path)
}

/// The error text of a response that holds neither data nor an error.
pub open spec fn empty_response_message() -> Seq<char> {
    "Unexpected emtpy response from server"@
}

impl<T> Response<T> {
    /// The data of the response, or else its error message.
    pub fn into_result(self) -> (r: Result<T, String>)
        ensures
            r is Ok <==> self.data is Some,
            self.data is Some ==> r->Ok_0 == self.data->0,
            self.data is None && self.error is Some ==> r->Err_0@ == self.error->0@,
            self.data is None && self.error is None ==> r->Err_0@ == empty_response_message(),
    {
        match self.data {
            Some(d) => Ok(d),
            None => match self.error {
                Some(e) => Err(e),
                None => {
                    let m = concat2("Unexpected emtpy response from server", "");
                    proof {
                        reveal_strlit("");
                        assert("Unexpected emtpy response from server"@ + ""@ =~= "Unexpected emtpy response from server"@);
                    }
                    Err(m)
                },
            },
        }
    }
}

/// The API path of version `version` (the latest when `None`) of the
/// secret `key` of the key-value mount `mount`.
pub fn kv_data_path(mount: &str, key: &str, version: Option<u32>) -> (r: String)
    ensures
        r@ == mount_prefix(mount@) + "data/"@ + key@ + match version {
            Some(v) => "?version="@ + decimal(v as nat),
            None => Seq::<char>::empty(),
        },
{
    let relative = concat2("data/", key);
    let path = get_mount_path(mount, relative.as_str());
    match version {
        Some(v) => {
            let digits = decimal_text(v as usize);
            concat3(path.as_str(), "?version=", digits.as_str())
        },
        None => {
            let r = concat2(path.as_str(), "");
            proof {
                reveal_strlit("");
                assert(path@ + ""@ =~= path@);
            }
            r
        },
    }
}

/// The header that carries the token.
pub const TOKEN_HEADER: &'static str = "X-Covert-Token";

/// The header that carries the namespace.
pub const NAMESPACE_HEADER: &'static str = "X-Covert-Namespace";

/// The headers a request carries: the token, then the namespace, each when
/// set.
pub fn client_headers(token: Option<String>, namespace: Option<String>) -> (r: Vec<(String, String)>)
    ensures
        r@.len() == (if token is Some { 1int } else { 0int }) + (if namespace is Some { 1int } else { 0int }),
        token matches Some(t) ==> r@[0].0@ == TOKEN_HEADER@ && r@[0].1 == t,
        namespace matches Some(n) ==> r@.last().0@ == NAMESPACE_HEADER@ && r@.last().1 == n,
{
    let mut headers: Vec<(String, String)> = Vec::new();
    if let Some(t) = token {
        headers.push((TOKEN_HEADER.to_owned(), t));
    }
    if let Some(n) = namespace {
        headers.push((NAMESPACE_HEADER.to_owned(), n));
    }
    headers
}

} // verus!
